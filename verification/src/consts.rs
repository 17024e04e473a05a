//! The 5-nibble type tags ("prologs") of the object format, and their
//! read-only label tables.

use vstd::prelude::*;

verus! {

pub const DOBINT: u32 = 0x2911;

/// Precision Integer (HP49G)
pub const DOINT: u32 = 0x02614;

/// Precision Real (HP49G)
pub const DOLNGREAL: u32 = 0x0263A;

/// Precision Complex (HP49G)
pub const DOLNGCMP: u32 = 0x02660;

/// Symbolic matrix (HP49G)
pub const DOMATRIX: u32 = 0x02686;

/// Flash PTR (HP49G)
pub const DOFLASHP: u32 = 0x026AC;

/// Aplet (HP49G)
pub const DOAPLET: u32 = 0x026D5;

/// Mini Font (HP49G)
pub const DOMINIFONT: u32 = 0x026FE;

/// Real
pub const DOREAL: u32 = 0x02933;

/// Long Real
pub const DOEREAL: u32 = 0x02955;

/// Complex
pub const DOCMP: u32 = 0x02977;

/// Long Complex
pub const DOECMP: u32 = 0x0299D;

/// Character
pub const DOCHAR: u32 = 0x029BF;

/// Array
pub const DOARRY: u32 = 0x029E8;

/// Linked Array
pub const DOLNKARRY: u32 = 0x02A0A;

/// String
pub const DOCSTR: u32 = 0x02A2C;

/// Binary Integer
pub const DOHSTR: u32 = 0x02A4E;

/// List
pub const DOLIST: u32 = 0x02A74;

/// Directory
pub const DORRP: u32 = 0x02A96;

/// Algebraic
pub const DOSYMB: u32 = 0x02AB8;

/// Tagged
pub const DOTAG: u32 = 0x02AFC;

/// Extended Pointer
pub const DOEXT1: u32 = 0x02BAA;

/// Unit
pub const DOEXT: u32 = 0x02ADA;

/// Graphic
pub const DOGROB: u32 = 0x02B1E;

/// Library
pub const DOLIB: u32 = 0x02B40;

/// Backup
pub const DOBAK: u32 = 0x02B62;

/// Library Data
pub const DOEXT0: u32 = 0x02B88;

/// Reserved 1, Font (HP49G)
pub const DOEXT2: u32 = 0x02BCC;

/// Reserved 2
pub const DOEXT3: u32 = 0x02BEE;

/// Reserved 3
pub const DOEXT4: u32 = 0x02C10;

/// Program
pub const DOCOL: u32 = 0x02D9D;

/// Code
pub const DOCODE: u32 = 0x02DCC;

/// Global Name
pub const DOIDNT: u32 = 0x02E48;

/// Local Name
pub const DOLAM: u32 = 0x02E6D;

/// XLIB Name
pub const DOROMP: u32 = 0x02E92;

/// ;
pub const SEMI: u32 = 0x0312B;

/// =GARBAGECOL entry for HP48S/G/GII and HP49G(+)
pub const GARBAGECOL: u32 = 0x0613E;

/// Tags below this threshold that no decode rule matches are illegal;
/// unmatched tags at or above it are unresolved external references.
pub const PROLOG_THRESHOLD: u32 = 0x1000;

/// The human-readable description of a type tag.
pub open spec fn prolog_label(prolog: u32) -> Seq<char> {
    if prolog == DOBINT {
        "Binary Integer"@
    } else if prolog == DOINT {
        "Precision Integer (HP49G)"@
    } else if prolog == DOLNGREAL {
        "Precision Real (HP49G)"@
    } else if prolog == DOLNGCMP {
        "Precision Complex (HP49G)"@
    } else if prolog == DOMATRIX {
        "Symbolic matrix (HP49G)"@
    } else if prolog == DOFLASHP {
        "Flash PTR (HP49G)"@
    } else if prolog == DOAPLET {
        "Aplet (HP49G)"@
    } else if prolog == DOMINIFONT {
        "Mini Font (HP49G)"@
    } else if prolog == DOREAL {
        "Real"@
    } else if prolog == DOEREAL {
        "Long Real"@
    } else if prolog == DOCMP {
        "Complex"@
    } else if prolog == DOECMP {
        "Long Complex"@
    } else if prolog == DOCHAR {
        "Character"@
    } else if prolog == DOARRY {
        "Array"@
    } else if prolog == DOLNKARRY {
        "Linked Array"@
    } else if prolog == DOCSTR {
        "String"@
    } else if prolog == DOHSTR {
        "Binary Integer"@
    } else if prolog == DOLIST {
        "List"@
    } else if prolog == DORRP {
        "Directory"@
    } else if prolog == DOSYMB {
        "Algebraic"@
    } else if prolog == DOTAG {
        "Tagged"@
    } else if prolog == DOEXT1 {
        "Extended Pointer"@
    } else if prolog == DOEXT {
        "Unit"@
    } else if prolog == DOGROB {
        "Graphic"@
    } else if prolog == DOLIB {
        "Library"@
    } else if prolog == DOBAK {
        "Backup"@
    } else if prolog == DOEXT0 {
        "Library Data"@
    } else if prolog == DOEXT2 {
        "Reserved 1, Font (HP49G)"@
    } else if prolog == DOEXT3 {
        "Reserved 2"@
    } else if prolog == DOEXT4 {
        "Reserved 3"@
    } else if prolog == DOCOL {
        "Program"@
    } else if prolog == DOCODE {
        "Code"@
    } else if prolog == DOIDNT {
        "Global Name"@
    } else if prolog == DOLAM {
        "Local Name"@
    } else if prolog == DOROMP {
        "XLIB Name"@
    } else if prolog == SEMI {
        ";"@
    } else if prolog == GARBAGECOL {
        "=GARBAGECOL entry for HP48S/G/GII and HP49G(+)"@
    } else {
        "Unknown prolog"@
    }
}

/// The short identifier of a type tag.
pub open spec fn prolog_ident(prolog: u32) -> Seq<char> {
    if prolog == DOBINT {
        "DOBINT"@
    } else if prolog == DOINT {
        "DOINT"@
    } else if prolog == DOLNGREAL {
        "DOLNGREAL"@
    } else if prolog == DOLNGCMP {
        "DOLNGCMP"@
    } else if prolog == DOMATRIX {
        "DOMATRIX"@
    } else if prolog == DOFLASHP {
        "DOFLASHP"@
    } else if prolog == DOAPLET {
        "DOAPLET"@
    } else if prolog == DOMINIFONT {
        "DOMINIFONT"@
    } else if prolog == DOREAL {
        "DOREAL"@
    } else if prolog == DOEREAL {
        "DOEREAL"@
    } else if prolog == DOCMP {
        "DOCMP"@
    } else if prolog == DOECMP {
        "DOECMP"@
    } else if prolog == DOCHAR {
        "DOCHAR"@
    } else if prolog == DOARRY {
        "DOARRY"@
    } else if prolog == DOLNKARRY {
        "DOLNKARRY"@
    } else if prolog == DOCSTR {
        "DOCSTR"@
    } else if prolog == DOHSTR {
        "DOHSTR"@
    } else if prolog == DOLIST {
        "DOLIST"@
    } else if prolog == DORRP {
        "DORRP"@
    } else if prolog == DOSYMB {
        "DOSYMB"@
    } else if prolog == DOTAG {
        "DOTAG"@
    } else if prolog == DOEXT1 {
        "DOEXT1"@
    } else if prolog == DOEXT {
        "DOEXT"@
    } else if prolog == DOGROB {
        "DOGROB"@
    } else if prolog == DOLIB {
        "DOLIB"@
    } else if prolog == DOBAK {
        "DOBAK"@
    } else if prolog == DOEXT0 {
        "DOEXT0"@
    } else if prolog == DOEXT2 {
        "DOEXT2"@
    } else if prolog == DOEXT3 {
        "DOEXT3"@
    } else if prolog == DOEXT4 {
        "DOEXT4"@
    } else if prolog == DOCOL {
        "DOCOL"@
    } else if prolog == DOCODE {
        "DOCODE"@
    } else if prolog == DOIDNT {
        "DOIDNT"@
    } else if prolog == DOLAM {
        "DOLAM"@
    } else if prolog == DOROMP {
        "DOROMP"@
    } else if prolog == SEMI {
        "SEMI"@
    } else if prolog == GARBAGECOL {
        "GARBAGECOL"@
    } else {
        "Unknown prolog"@
    }
}

/// Look up the human-readable description of a type tag.
pub fn prolog_to_string(prolog: u32) -> (r: &'static str)
    ensures
        r@ == prolog_label(prolog),
{
    if prolog == DOBINT {
        "Binary Integer"
    } else if prolog == DOINT {
        "Precision Integer (HP49G)"
    } else if prolog == DOLNGREAL {
        "Precision Real (HP49G)"
    } else if prolog == DOLNGCMP {
        "Precision Complex (HP49G)"
    } else if prolog == DOMATRIX {
        "Symbolic matrix (HP49G)"
    } else if prolog == DOFLASHP {
        "Flash PTR (HP49G)"
    } else if prolog == DOAPLET {
        "Aplet (HP49G)"
    } else if prolog == DOMINIFONT {
        "Mini Font (HP49G)"
    } else if prolog == DOREAL {
        "Real"
    } else if prolog == DOEREAL {
        "Long Real"
    } else if prolog == DOCMP {
        "Complex"
    } else if prolog == DOECMP {
        "Long Complex"
    } else if prolog == DOCHAR {
        "Character"
    } else if prolog == DOARRY {
        "Array"
    } else if prolog == DOLNKARRY {
        "Linked Array"
    } else if prolog == DOCSTR {
        "String"
    } else if prolog == DOHSTR {
        "Binary Integer"
    } else if prolog == DOLIST {
        "List"
    } else if prolog == DORRP {
        "Directory"
    } else if prolog == DOSYMB {
        "Algebraic"
    } else if prolog == DOTAG {
        "Tagged"
    } else if prolog == DOEXT1 {
        "Extended Pointer"
    } else if prolog == DOEXT {
        "Unit"
    } else if prolog == DOGROB {
        "Graphic"
    } else if prolog == DOLIB {
        "Library"
    } else if prolog == DOBAK {
        "Backup"
    } else if prolog == DOEXT0 {
        "Library Data"
    } else if prolog == DOEXT2 {
        "Reserved 1, Font (HP49G)"
    } else if prolog == DOEXT3 {
        "Reserved 2"
    } else if prolog == DOEXT4 {
        "Reserved 3"
    } else if prolog == DOCOL {
        "Program"
    } else if prolog == DOCODE {
        "Code"
    } else if prolog == DOIDNT {
        "Global Name"
    } else if prolog == DOLAM {
        "Local Name"
    } else if prolog == DOROMP {
        "XLIB Name"
    } else if prolog == SEMI {
        ";"
    } else if prolog == GARBAGECOL {
        "=GARBAGECOL entry for HP48S/G/GII and HP49G(+)"
    } else {
        "Unknown prolog"
    }
}

/// Look up the short identifier of a type tag.
pub fn prolog_to_id(prolog: u32) -> (r: &'static str)
    ensures
        r@ == prolog_ident(prolog),
{
    if prolog == DOBINT {
        "DOBINT"
    } else if prolog == DOINT {
        "DOINT"
    } else if prolog == DOLNGREAL {
        "DOLNGREAL"
    } else if prolog == DOLNGCMP {
        "DOLNGCMP"
    } else if prolog == DOMATRIX {
        "DOMATRIX"
    } else if prolog == DOFLASHP {
        "DOFLASHP"
    } else if prolog == DOAPLET {
        "DOAPLET"
    } else if prolog == DOMINIFONT {
        "DOMINIFONT"
    } else if prolog == DOREAL {
        "DOREAL"
    } else if prolog == DOEREAL {
        "DOEREAL"
    } else if prolog == DOCMP {
        "DOCMP"
    } else if prolog == DOECMP {
        "DOECMP"
    } else if prolog == DOCHAR {
        "DOCHAR"
    } else if prolog == DOARRY {
        "DOARRY"
    } else if prolog == DOLNKARRY {
        "DOLNKARRY"
    } else if prolog == DOCSTR {
        "DOCSTR"
    } else if prolog == DOHSTR {
        "DOHSTR"
    } else if prolog == DOLIST {
        "DOLIST"
    } else if prolog == DORRP {
        "DORRP"
    } else if prolog == DOSYMB {
        "DOSYMB"
    } else if prolog == DOTAG {
        "DOTAG"
    } else if prolog == DOEXT1 {
        "DOEXT1"
    } else if prolog == DOEXT {
        "DOEXT"
    } else if prolog == DOGROB {
        "DOGROB"
    } else if prolog == DOLIB {
        "DOLIB"
    } else if prolog == DOBAK {
        "DOBAK"
    } else if prolog == DOEXT0 {
        "DOEXT0"
    } else if prolog == DOEXT2 {
        "DOEXT2"
    } else if prolog == DOEXT3 {
        "DOEXT3"
    } else if prolog == DOEXT4 {
        "DOEXT4"
    } else if prolog == DOCOL {
        "DOCOL"
    } else if prolog == DOCODE {
        "DOCODE"
    } else if prolog == DOIDNT {
        "DOIDNT"
    } else if prolog == DOLAM {
        "DOLAM"
    } else if prolog == DOROMP {
        "DOROMP"
    } else if prolog == SEMI {
        "SEMI"
    } else if prolog == GARBAGECOL {
        "GARBAGECOL"
    } else {
        "Unknown prolog"
    }
}

} // verus!
