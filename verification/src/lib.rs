//! Decoder for a nibble-addressed binary object format used by calculator
//! ROM/backup files, and a decompiler that renders the decoded object tree
//! as human-readable text.
//!
//! The input bytes are expanded into a shared immutable arena of 4-bit
//! values ([`nibbles`]).  A recursive-descent grammar keyed by a 5-nibble
//! type tag produces a closed object-tree variant ([`Obj`]).  Every decoder
//! is verified against a specification-level parser over the arena: the
//! `..._at` spec functions below define, position by position, exactly
//! which object a well-formed input denotes and exactly which failure a
//! malformed one produces.

use vstd::prelude::*;

pub mod basic;
pub mod consts;
pub mod decompile;
pub mod dir;
pub mod extable;
pub mod library;
pub mod nibbles;

pub use crate::basic::{Complex, Real};
use crate::basic::{complex_at, next_complex, next_real, real_at};
pub use crate::consts::{prolog_to_id, prolog_to_string};
use crate::consts::{
    prolog_ident, DOARRY, DOBAK, DOBINT, DOCHAR, DOCMP, DOCODE, DOCOL, DOCSTR,
    DOECMP, DOEREAL, DOEXT, DOEXT0, DOEXT1, DOEXT2, DOEXT3, DOEXT4, DOFLASHP, DOGROB, DOIDNT,
    DOINT, DOLAM, DOLIB, DOLIST, DOLNKARRY, DOREAL, DOROMP, DORRP, DOSYMB, DOTAG, PROLOG_THRESHOLD,
    SEMI,
};
pub use crate::dir::{Dir, DirEntity};
use crate::dir::{dir_full_at, next_dir, view_dir};
pub use crate::library::{HashTable, Library, Xlib};
use crate::library::{lib_at, next_library, view_library};
pub use crate::nibbles::{decode_bcd, extract_nibbles, nibbles_to_bytes, pascal_string};
use crate::nibbles::{
    bcd_val, bytes_to_text, copy_nibbles, expand_bytes, int_at, lv_at, next_int, next_lv,
    nibbles_wf, pack_nibbles, pascal_at, pow16, text_of,
};
use vstd::string::StringExecFns;

pub use crate::decompile::Decompiled;
pub use crate::extable::{get_extable, Extable};
pub use crate::nibbles::{
    hexdump_nibbles, next_mandatory_offset, next_offset, previous_nibbles, Cursor,
};

verus! {

broadcast use vstd::std_specs::vec::axiom_vec_decreases_to_view, vstd::seq::axiom_seq_index_decreases;

/// Failure classes of the decoder.
///
/// `BadHeader`: the file signature is not one of the accepted magic strings.
/// `OutOfData`: a field, slice or resolved offset exceeds the remaining input.
/// `Mismatch`: a structural inconsistency (a redundant length echo disagrees,
/// a framing tag does not match the constant for that table kind, or a
/// mandatory offset is zero).
/// `IllegalProlog`: a type tag below the reserved threshold that no decode
/// rule matches.
/// `NoExtable`: the symbol-table builder was given a library without an
/// embedded symbol blob.
#[derive(Debug, Clone, Copy, PartialEq, Eq, Structural)]
pub enum Error {
    BadHeader,
    OutOfData,
    Mismatch,
    IllegalProlog(u32),
    NoExtable,
}

/// An opaque run of raw nibbles.
#[derive(Debug)]
pub struct Blob(pub Vec<u8>);

impl View for Blob {
    type V = Seq<u8>;

    open spec fn view(&self) -> Seq<u8> {
        self.0@
    }
}

/// A decoded character string.
#[derive(Debug)]
pub struct StringBlob(pub String);

impl View for StringBlob {
    type V = Seq<char>;

    open spec fn view(&self) -> Seq<char> {
        self.0@
    }
}

/// An array object: an element type tag shared by every element, the
/// dimension sizes, and a flat element list whose length is the product of
/// the dimensions.
#[derive(Debug)]
pub struct Array {
    pub obj_type: u32,
    pub num_dims: usize,
    pub dims: Vec<usize>,
    pub objects: Vec<Obj>,
}

/// The decoded object tree: a closed variant with one constructor per
/// decode rule.  A `Semi` terminator marks the end of a
/// semicolon-delimited sequence and never appears as tree content.
#[derive(Debug)]
pub enum Obj {
    Dir(Dir),
    Real(Real),
    Int(i32),
    CStr(StringBlob),
    Prg(Vec<Obj>),
    List(Vec<Obj>),
    Symb(Vec<Obj>),
    Unit(Vec<Obj>),
    Complex(Complex),
    Array(Array),
    Integer(i128),
    Ext(u32),
    ExtObj(u32, Blob, String),
    FixedObj(u32, Blob, String),
    Code(Blob),
    GlobalName(String),
    LocalName(String),
    Tagged(String),
    Semi(),
    Library(Library),
}

/// The mathematical model of an [`Array`].
pub struct ArrayV {
    pub obj_type: u32,
    pub num_dims: usize,
    pub dims: Seq<usize>,
    pub objects: Seq<ObjV>,
}

/// The mathematical model of an [`Obj`]: strings become character
/// sequences, vectors become sequences.
pub enum ObjV {
    Dir(crate::dir::DirV),
    Real(Real),
    Int(i32),
    CStr(Seq<char>),
    Prg(Seq<ObjV>),
    List(Seq<ObjV>),
    Symb(Seq<ObjV>),
    Unit(Seq<ObjV>),
    Complex(Complex),
    Array(ArrayV),
    Integer(i128),
    Ext(u32),
    ExtObj(u32, Seq<u8>, Seq<char>),
    FixedObj(u32, Seq<u8>, Seq<char>),
    Code(Seq<u8>),
    GlobalName(Seq<char>),
    LocalName(Seq<char>),
    Tagged(Seq<char>),
    Semi,
    Library(crate::library::LibraryV),
}

/// The models of a sequence of objects.
pub open spec fn view_objs(s: Seq<Obj>) -> Seq<ObjV>
    decreases s,
{
    Seq::new(
        s.len(),
        |i: int|
            if 0 <= i < s.len() {
                view_obj(s[i])
            } else {
                ObjV::Semi
            },
    )
}

/// The model of an array.
pub open spec fn view_array(arr: Array) -> ArrayV
    decreases arr,
{
    ArrayV {
        obj_type: arr.obj_type,
        num_dims: arr.num_dims,
        dims: arr.dims@,
        objects: view_objs(arr.objects@),
    }
}

/// The model of an object.
pub open spec fn view_obj(o: Obj) -> ObjV
    decreases o,
{
    match o {
        Obj::Dir(d) => ObjV::Dir(view_dir(d)),
        Obj::Real(v) => ObjV::Real(v),
        Obj::Int(v) => ObjV::Int(v),
        Obj::CStr(s) => ObjV::CStr(s.0@),
        Obj::Prg(v) => ObjV::Prg(view_objs(v@)),
        Obj::List(v) => ObjV::List(view_objs(v@)),
        Obj::Symb(v) => ObjV::Symb(view_objs(v@)),
        Obj::Unit(v) => ObjV::Unit(view_objs(v@)),
        Obj::Complex(v) => ObjV::Complex(v),
        Obj::Array(arr) => ObjV::Array(view_array(arr)),
        Obj::Integer(v) => ObjV::Integer(v),
        Obj::Ext(v) => ObjV::Ext(v),
        Obj::ExtObj(t, b, s) => ObjV::ExtObj(t, b.0@, s@),
        Obj::FixedObj(t, b, s) => ObjV::FixedObj(t, b.0@, s@),
        Obj::Code(b) => ObjV::Code(b.0@),
        Obj::GlobalName(s) => ObjV::GlobalName(s@),
        Obj::LocalName(s) => ObjV::LocalName(s@),
        Obj::Tagged(s) => ObjV::Tagged(s@),
        Obj::Semi() => ObjV::Semi,
        Obj::Library(l) => ObjV::Library(view_library(l)),
    }
}

impl View for Obj {
    type V = ObjV;

    open spec fn view(&self) -> ObjV {
        view_obj(*self)
    }
}

impl View for Array {
    type V = ArrayV;

    open spec fn view(&self) -> ArrayV {
        view_array(*self)
    }
}

/// The nibble width of each fixed-total-size object kind, or 0 for a kind
/// that is not fixed-size.
pub open spec fn fixed_size(prolog: u32) -> int {
    if prolog == DOFLASHP {
        7
    } else if prolog == DOBINT {
        5
    } else if prolog == DOEREAL {
        21
    } else if prolog == DOECMP {
        42
    } else if prolog == DOCHAR {
        2
    } else if prolog == DOROMP {
        6
    } else {
        0
    }
}

/// Specification parser for one object at `pos`: reads the 5-nibble type
/// tag, then dispatches.
pub open spec fn obj_at(a: Seq<u8>, pos: int, end: int) -> Result<(ObjV, int), Error>
    decreases end - pos, 2int, 0int,
{
    if end - pos < 5 {
        Err(Error::OutOfData)
    } else {
        obj_tagged_at(a, pos + 5, end, crate::nibbles::nib_at(a, pos, 5) as u32)
    }
}

/// Specification parser for one object whose tag is already known; `pos` is
/// the position after the tag.  Mirrors the decode rule of each tag class:
/// fixed-size blobs, direct field decodes, length-value framed payloads,
/// terminator-delimited sequences, name-like strings, the directory and
/// library containers, the terminator itself, illegal tags below the
/// reserved threshold, and the open-world external-reference fallback.
pub open spec fn obj_tagged_at(a: Seq<u8>, pos: int, end: int, prolog: u32) -> Result<
    (ObjV, int),
    Error,
>
    decreases end - pos, 1int, 0int,
{
    if prolog == DORRP {
        match dir_full_at(a, pos, end) {
            Err(e) => Err(e),
            Ok((d, p)) => Ok((ObjV::Dir(d), p)),
        }
    } else if prolog == DOREAL {
        if end - pos < 16 {
            Err(Error::OutOfData)
        } else {
            Ok((ObjV::Real(real_at(a, pos)), pos + 16))
        }
    } else if prolog == DOCMP {
        if end - pos < 32 {
            Err(Error::OutOfData)
        } else {
            Ok((ObjV::Complex(complex_at(a, pos)), pos + 32))
        }
    } else if fixed_size(prolog) != 0 {
        let size = fixed_size(prolog);
        if end - pos < size {
            Err(Error::OutOfData)
        } else {
            Ok((ObjV::FixedObj(prolog, a.subrange(pos, pos + size), prolog_ident(prolog)), pos
                + size))
        }
    } else if prolog == DOINT {
        match int_obj_at(a, pos, end) {
            Err(e) => Err(e),
            Ok((v, p)) => Ok((ObjV::Int(v), p)),
        }
    } else if prolog == DOCSTR {
        match lv_at(a, pos, end) {
            Err(e) => Err(e),
            Ok((p1, p2)) => Ok((ObjV::CStr(text_of(pack_nibbles(a.subrange(p1, p2)))), p2)),
        }
    } else if prolog == DOCOL || prolog == DOLIST || prolog == DOSYMB || prolog == DOEXT {
        match seq_objs_at(a, pos, end) {
            Err(e) => Err(e),
            Ok((objs, p)) => Ok(
                (
                    if prolog == DOCOL {
                        ObjV::Prg(objs)
                    } else if prolog == DOLIST {
                        ObjV::List(objs)
                    } else if prolog == DOSYMB {
                        ObjV::Symb(objs)
                    } else {
                        ObjV::Unit(objs)
                    },
                    p,
                ),
            ),
        }
    } else if prolog == DOCODE {
        match lv_at(a, pos, end) {
            Err(e) => Err(e),
            Ok((p1, p2)) => Ok((ObjV::Code(a.subrange(p1, p2)), p2)),
        }
    } else if prolog == SEMI {
        Ok((ObjV::Semi, pos))
    } else if prolog == DOLIB {
        match lv_at(a, pos, end) {
            Err(e) => Err(e),
            Ok((p1, p2)) => match lib_at(a, p1, p2) {
                Err(e) => Err(e),
                Ok(l) => Ok((ObjV::Library(l), p2)),
            },
        }
    } else if prolog == DOEXT1 || prolog == DOEXT2 || prolog == DOEXT3 || prolog == DOEXT4
        || prolog == DOGROB || prolog == DOARRY || prolog == DOLNKARRY || prolog
        == crate::consts::DOHSTR || prolog == DOBAK || prolog == DOEXT0 {
        match lv_at(a, pos, end) {
            Err(e) => Err(e),
            Ok((p1, p2)) => Ok(
                (ObjV::ExtObj(prolog, a.subrange(p1, p2), prolog_ident(prolog)), p2),
            ),
        }
    } else if prolog == DOIDNT || prolog == DOLAM || prolog == DOTAG {
        match pascal_at(a, pos, end) {
            Err(e) => Err(e),
            Ok((name, p)) => Ok(
                (
                    if prolog == DOIDNT {
                        ObjV::GlobalName(name)
                    } else if prolog == DOLAM {
                        ObjV::LocalName(name)
                    } else {
                        ObjV::Tagged(name)
                    },
                    p,
                ),
            ),
        }
    } else if prolog < PROLOG_THRESHOLD {
        Err(Error::IllegalProlog(prolog))
    } else {
        Ok((ObjV::Ext(prolog), pos))
    }
}

/// Specification parser for a terminator-delimited sequence: objects are
/// decoded until exactly one terminator tag is consumed; the terminator
/// itself is not part of the result.
pub open spec fn seq_objs_at(a: Seq<u8>, pos: int, end: int) -> Result<(Seq<ObjV>, int), Error>
    decreases end - pos, 0int, 0int,
{
    if end - pos < 5 {
        Err(Error::OutOfData)
    } else if crate::nibbles::nib_at(a, pos, 5) as u32 == SEMI {
        Ok((Seq::empty(), pos + 5))
    } else {
        match obj_tagged_at(a, pos + 5, end, crate::nibbles::nib_at(a, pos, 5) as u32) {
            Err(e) => Err(e),
            Ok((o, p2)) => {
                if p2 < pos + 5 || p2 > end {
                    Err(Error::OutOfData)
                } else {
                    match seq_objs_at(a, p2, end) {
                        Err(e) => Err(e),
                        Ok((rest, p3)) => Ok((seq![o] + rest, p3)),
                    }
                }
            },
        }
    }
}

/// Specification parser for the dimension-size list of an array.
pub open spec fn dims_at(a: Seq<u8>, pos: int, end: int, n: nat) -> Result<(Seq<usize>, int), Error>
    decreases end - pos, 0int, n,
{
    if n == 0 {
        Ok((Seq::empty(), pos))
    } else {
        match int_at(a, pos, end, 5) {
            Err(e) => Err(e),
            Ok(v) => match dims_at(a, pos + 5, end, (n - 1) as nat) {
                Err(e) => Err(e),
                Ok((rest, p)) => Ok((seq![v as usize] + rest, p)),
            },
        }
    }
}

/// The product of the dimension sizes, or `None` where an intermediate
/// product exceeds the machine word (such an array cannot be held).
pub open spec fn prod_checked(dims: Seq<usize>) -> Option<nat>
    decreases dims.len(),
{
    if dims.len() == 0 {
        Some(1 as nat)
    } else {
        match prod_checked(dims.drop_last()) {
            None => None,
            Some(p) => {
                if p * dims.last() > usize::MAX {
                    None
                } else {
                    Some((p * dims.last()) as nat)
                }
            },
        }
    }
}

/// Specification parser for the flat element list of an array: `n` objects
/// decoded with the shared pre-known element tag.
pub open spec fn arr_elems_at(a: Seq<u8>, pos: int, end: int, tag: u32, n: nat) -> Result<
    (Seq<ObjV>, int),
    Error,
>
    decreases end - pos, 2int, n,
{
    if n == 0 {
        Ok((Seq::empty(), pos))
    } else {
        match obj_tagged_at(a, pos, end, tag) {
            Err(e) => Err(e),
            Ok((o, p2)) => {
                if p2 < pos || p2 > end {
                    Err(Error::OutOfData)
                } else {
                    match arr_elems_at(a, p2, end, tag, (n - 1) as nat) {
                        Err(e) => Err(e),
                        Ok((rest, p3)) => Ok((seq![o] + rest, p3)),
                    }
                }
            },
        }
    }
}

/// Specification parser for an array body at `pos` (after its tag): a
/// 5-nibble total size (unused), the element type tag, the dimension count,
/// the dimension sizes, then the flat element list.
pub open spec fn array_at(a: Seq<u8>, pos: int, end: int) -> Result<(ArrayV, int), Error>
    decreases end - pos, 0int, 0int,
{
    if end - pos < 15 {
        Err(Error::OutOfData)
    } else {
        let obj_type = crate::nibbles::nib_at(a, pos + 5, 5) as u32;
        let ndims = crate::nibbles::nib_at(a, pos + 10, 5);
        match dims_at(a, pos + 15, end, ndims) {
            Err(e) => Err(e),
            Ok((dims, p1)) => {
                if p1 < pos + 15 || p1 > end {
                    Err(Error::OutOfData)
                } else {
                    match prod_checked(dims) {
                        None => Err(Error::OutOfData),
                        Some(count) => match arr_elems_at(a, p1, end, obj_type, count) {
                            Err(e) => Err(e),
                            Ok((objs, p2)) => Ok(
                                (
                                    ArrayV {
                                        obj_type,
                                        num_dims: ndims as usize,
                                        dims,
                                        objects: objs,
                                    },
                                    p2,
                                ),
                            ),
                        },
                    }
                }
            },
        }
    }
}

/// Specification parser for a precision integer body: a length-value framed
/// binary-coded-decimal payload.
pub open spec fn int_obj_at(a: Seq<u8>, pos: int, end: int) -> Result<(i32, int), Error> {
    match lv_at(a, pos, end) {
        Err(e) => Err(e),
        Ok((p1, p2)) => Ok(((bcd_val(a.subrange(p1, p2)) as u64) as i32, p2)),
    }
}

/// Decode one object: read the 5-nibble tag, then dispatch.
pub(crate) fn next_obj(a: &[u8], c: &mut Cursor) -> (r: Result<Obj, Error>)
    requires
        old(c).wf(a@),
        nibbles_wf(a@),
    ensures
        final(c).end == old(c).end,
        final(c).wf(a@),
        match r {
            Ok(o) => obj_at(a@, old(c).pos as int, old(c).end as int) == Ok::<(ObjV, int), Error>(
                (o@, final(c).pos as int),
            ) && final(c).pos >= old(c).pos + 5,
            Err(e) => obj_at(a@, old(c).pos as int, old(c).end as int) == Err::<
                (ObjV, int),
                Error,
            >(e) && final(c).pos == old(c).pos,
        },
    decreases c.end - c.pos, 2int, 0int,
{
    let mut t = *c;
    let tag64 = match next_int(a, &mut t, 5) {
        Ok(v) => v,
        Err(e) => {
            return Err(e);
        },
    };
    let tag = tag64 as u32;
    let o = match next_obj_with_prolog(a, &mut t, tag) {
        Ok(o) => o,
        Err(e) => {
            return Err(e);
        },
    };
    c.pos = t.pos;
    Ok(o)
}

/// Decode one object whose tag is already known (the tag has been
/// consumed); used both by the dispatcher and for array elements, which
/// share one pre-known element tag.
pub(crate) fn next_obj_with_prolog(a: &[u8], c: &mut Cursor, prolog: u32) -> (r: Result<
    Obj,
    Error,
>)
    requires
        old(c).wf(a@),
        nibbles_wf(a@),
    ensures
        final(c).end == old(c).end,
        final(c).wf(a@),
        match r {
            Ok(o) => obj_tagged_at(a@, old(c).pos as int, old(c).end as int, prolog) == Ok::<
                (ObjV, int),
                Error,
            >((o@, final(c).pos as int)) && final(c).pos >= old(c).pos,
            Err(e) => obj_tagged_at(a@, old(c).pos as int, old(c).end as int, prolog) == Err::<
                (ObjV, int),
                Error,
            >(e) && final(c).pos == old(c).pos,
        },
    decreases c.end - c.pos, 1int, 0int,
{
    if prolog == DORRP {
        let mut t = *c;
        let d = match next_dir(a, &mut t) {
            Ok(d) => d,
            Err(e) => {
                return Err(e);
            },
        };
        c.pos = t.pos;
        Ok(Obj::Dir(d))
    } else if prolog == DOREAL {
        let mut t = *c;
        let v = match next_real(a, &mut t) {
            Ok(v) => v,
            Err(e) => {
                return Err(e);
            },
        };
        c.pos = t.pos;
        Ok(Obj::Real(v))
    } else if prolog == DOCMP {
        let mut t = *c;
        let v = match next_complex(a, &mut t) {
            Ok(v) => v,
            Err(e) => {
                return Err(e);
            },
        };
        c.pos = t.pos;
        Ok(Obj::Complex(v))
    } else if prolog == DOFLASHP || prolog == DOBINT || prolog == DOEREAL || prolog == DOECMP
        || prolog == DOCHAR || prolog == DOROMP {
        let size: usize = if prolog == DOFLASHP {
            7
        } else if prolog == DOBINT {
            5
        } else if prolog == DOEREAL {
            21
        } else if prolog == DOECMP {
            42
        } else if prolog == DOCHAR {
            2
        } else {
            6
        };
        if c.end - c.pos < size {
            return Err(Error::OutOfData);
        }
        let data = copy_nibbles(a, c.pos, c.pos + size);
        let id = String::from_str(prolog_to_id(prolog));
        c.pos = c.pos + size;
        Ok(Obj::FixedObj(prolog, Blob(data), id))
    } else if prolog == DOINT {
        let mut t = *c;
        let v = match next_integer(a, &mut t) {
            Ok(v) => v,
            Err(e) => {
                return Err(e);
            },
        };
        c.pos = t.pos;
        Ok(Obj::Int(v))
    } else if prolog == DOCSTR {
        let mut t = *c;
        let sub = match next_lv(a, &mut t) {
            Ok(s) => s,
            Err(e) => {
                return Err(e);
            },
        };
        let bytes = nibbles_to_bytes(a, sub.pos, sub.end);
        let s = bytes_to_text(&bytes);
        c.pos = t.pos;
        Ok(Obj::CStr(StringBlob(s)))
    } else if prolog == DOCOL || prolog == DOLIST || prolog == DOSYMB || prolog == DOEXT {
        let mut t = *c;
        let objs = match next_semi_terminated(a, &mut t) {
            Ok(v) => v,
            Err(e) => {
                return Err(e);
            },
        };
        c.pos = t.pos;
        if prolog == DOCOL {
            Ok(Obj::Prg(objs))
        } else if prolog == DOLIST {
            Ok(Obj::List(objs))
        } else if prolog == DOSYMB {
            Ok(Obj::Symb(objs))
        } else {
            Ok(Obj::Unit(objs))
        }
    } else if prolog == DOCODE {
        let mut t = *c;
        let sub = match next_lv(a, &mut t) {
            Ok(s) => s,
            Err(e) => {
                return Err(e);
            },
        };
        let data = copy_nibbles(a, sub.pos, sub.end);
        c.pos = t.pos;
        Ok(Obj::Code(Blob(data)))
    } else if prolog == SEMI {
        Ok(Obj::Semi())
    } else if prolog == DOLIB {
        let mut t = *c;
        let sub = match next_lv(a, &mut t) {
            Ok(s) => s,
            Err(e) => {
                return Err(e);
            },
        };
        let l = match next_library(a, sub) {
            Ok(l) => l,
            Err(e) => {
                return Err(e);
            },
        };
        c.pos = t.pos;
        Ok(Obj::Library(l))
    } else if prolog == DOEXT1 || prolog == DOEXT2 || prolog == DOEXT3 || prolog == DOEXT4
        || prolog == DOGROB || prolog == DOARRY || prolog == DOLNKARRY || prolog
        == crate::consts::DOHSTR || prolog == DOBAK || prolog == DOEXT0 {
        let mut t = *c;
        let sub = match next_lv(a, &mut t) {
            Ok(s) => s,
            Err(e) => {
                return Err(e);
            },
        };
        let data = copy_nibbles(a, sub.pos, sub.end);
        let id = String::from_str(prolog_to_id(prolog));
        c.pos = t.pos;
        Ok(Obj::ExtObj(prolog, Blob(data), id))
    } else if prolog == DOIDNT || prolog == DOLAM || prolog == DOTAG {
        let mut t = *c;
        let s = match pascal_string(a, &mut t) {
            Ok(s) => s,
            Err(e) => {
                return Err(e);
            },
        };
        c.pos = t.pos;
        if prolog == DOIDNT {
            Ok(Obj::GlobalName(s))
        } else if prolog == DOLAM {
            Ok(Obj::LocalName(s))
        } else {
            Ok(Obj::Tagged(s))
        }
    } else if prolog < PROLOG_THRESHOLD {
        Err(Error::IllegalProlog(prolog))
    } else {
        Ok(Obj::Ext(prolog))
    }
}

/// Decode objects until exactly one terminator is consumed; the terminator
/// is not stored.
pub(crate) fn next_semi_terminated(a: &[u8], c: &mut Cursor) -> (r: Result<Vec<Obj>, Error>)
    requires
        old(c).wf(a@),
        nibbles_wf(a@),
    ensures
        final(c).end == old(c).end,
        final(c).wf(a@),
        match r {
            Ok(objs) => seq_objs_at(a@, old(c).pos as int, old(c).end as int) == Ok::<
                (Seq<ObjV>, int),
                Error,
            >((view_objs(objs@), final(c).pos as int)) && final(c).pos >= old(c).pos,
            Err(e) => seq_objs_at(a@, old(c).pos as int, old(c).end as int) == Err::<
                (Seq<ObjV>, int),
                Error,
            >(e) && final(c).pos == old(c).pos,
        },
    decreases c.end - c.pos, 0int, 0int,
{
    let mut t = *c;
    let tag64 = match next_int(a, &mut t, 5) {
        Ok(v) => v,
        Err(e) => {
            return Err(e);
        },
    };
    let tag = tag64 as u32;
    if tag == SEMI {
        c.pos = t.pos;
        let empty: Vec<Obj> = Vec::new();
        proof {
            assert(view_objs(empty@) =~= Seq::<ObjV>::empty());
        }
        return Ok(empty);
    }
    let o = match next_obj_with_prolog(a, &mut t, tag) {
        Ok(o) => o,
        Err(e) => {
            return Err(e);
        },
    };
    let mut rest = match next_semi_terminated(a, &mut t) {
        Ok(v) => v,
        Err(e) => {
            return Err(e);
        },
    };
    let ghost rest0 = rest@;
    rest.insert(0, o);
    c.pos = t.pos;
    proof {
        assert(view_objs(rest@) =~= seq![o@] + view_objs(rest0));
    }
    Ok(rest)
}

/// Decode the dimension-size list of an array.
fn next_dims(a: &[u8], c: &mut Cursor, n: usize) -> (r: Result<Vec<usize>, Error>)
    requires
        old(c).wf(a@),
        nibbles_wf(a@),
    ensures
        final(c).end == old(c).end,
        final(c).wf(a@),
        match r {
            Ok(dims) => dims_at(a@, old(c).pos as int, old(c).end as int, n as nat) == Ok::<
                (Seq<usize>, int),
                Error,
            >((dims@, final(c).pos as int)) && final(c).pos >= old(c).pos,
            Err(e) => dims_at(a@, old(c).pos as int, old(c).end as int, n as nat) == Err::<
                (Seq<usize>, int),
                Error,
            >(e) && final(c).pos == old(c).pos,
        },
    decreases c.end - c.pos, 0int, n,
{
    if n == 0 {
        let empty: Vec<usize> = Vec::new();
        proof {
            assert(empty@ =~= Seq::<usize>::empty());
        }
        return Ok(empty);
    }
    let mut t = *c;
    let v64 = match next_int(a, &mut t, 5) {
        Ok(v) => v,
        Err(e) => {
            return Err(e);
        },
    };
    proof {
        reveal_with_fuel(pow16, 6);
        assert(v64 < 0x100000);
    }
    let v: usize = v64 as usize;
    let mut rest = match next_dims(a, &mut t, n - 1) {
        Ok(r) => r,
        Err(e) => {
            return Err(e);
        },
    };
    let ghost rest0 = rest@;
    rest.insert(0, v);
    c.pos = t.pos;
    proof {
        assert(rest@ =~= seq![v] + rest0);
    }
    Ok(rest)
}

/// Decode the flat element list of an array: `n` objects with the shared
/// pre-known element tag.
fn next_arr_elems(a: &[u8], c: &mut Cursor, tag: u32, n: usize) -> (r: Result<Vec<Obj>, Error>)
    requires
        old(c).wf(a@),
        nibbles_wf(a@),
    ensures
        final(c).end == old(c).end,
        final(c).wf(a@),
        match r {
            Ok(objs) => arr_elems_at(a@, old(c).pos as int, old(c).end as int, tag, n as nat)
                == Ok::<(Seq<ObjV>, int), Error>((view_objs(objs@), final(c).pos as int))
                && final(c).pos >= old(c).pos,
            Err(e) => arr_elems_at(a@, old(c).pos as int, old(c).end as int, tag, n as nat)
                == Err::<(Seq<ObjV>, int), Error>(e) && final(c).pos == old(c).pos,
        },
    decreases c.end - c.pos, 2int, n,
{
    if n == 0 {
        let empty: Vec<Obj> = Vec::new();
        proof {
            assert(view_objs(empty@) =~= Seq::<ObjV>::empty());
        }
        return Ok(empty);
    }
    let mut t = *c;
    let o = match next_obj_with_prolog(a, &mut t, tag) {
        Ok(o) => o,
        Err(e) => {
            return Err(e);
        },
    };
    let mut rest = match next_arr_elems(a, &mut t, tag, n - 1) {
        Ok(v) => v,
        Err(e) => {
            return Err(e);
        },
    };
    let ghost rest0 = rest@;
    rest.insert(0, o);
    c.pos = t.pos;
    proof {
        assert(view_objs(rest@) =~= seq![o@] + view_objs(rest0));
    }
    Ok(rest)
}

/// Decode an array body (the tag has been consumed): total size, element
/// type tag, dimension count, dimension sizes, then as many elements as the
/// product of the dimensions.
#[verifier::rlimit(50)]
#[verifier::spinoff_prover]
pub(crate) fn next_array(a: &[u8], c: &mut Cursor) -> (r: Result<Array, Error>)
    requires
        old(c).wf(a@),
        nibbles_wf(a@),
    ensures
        final(c).end == old(c).end,
        final(c).wf(a@),
        match r {
            Ok(arr) => array_at(a@, old(c).pos as int, old(c).end as int) == Ok::<
                (ArrayV, int),
                Error,
            >((arr@, final(c).pos as int)) && final(c).pos >= old(c).pos,
            Err(e) => array_at(a@, old(c).pos as int, old(c).end as int) == Err::<
                (ArrayV, int),
                Error,
            >(e) && final(c).pos == old(c).pos,
        },
    decreases c.end - c.pos, 0int, 0int,
{
    if c.end - c.pos < 15 {
        return Err(Error::OutOfData);
    }
    let mut t = *c;
    let _size = match next_int(a, &mut t, 5) {
        Ok(v) => v,
        Err(e) => {
            return Err(e);
        },
    };
    let type64 = match next_int(a, &mut t, 5) {
        Ok(v) => v,
        Err(e) => {
            return Err(e);
        },
    };
    let obj_type = type64 as u32;
    let nd64 = match next_int(a, &mut t, 5) {
        Ok(v) => v,
        Err(e) => {
            return Err(e);
        },
    };
    proof {
        reveal_with_fuel(pow16, 6);
        assert(nd64 < 0x100000);
    }
    let num_dims: usize = nd64 as usize;
    let dims = match next_dims(a, &mut t, num_dims) {
        Ok(d) => d,
        Err(e) => {
            return Err(e);
        },
    };
    proof {
        assert(dims@.take(dims@.len() as int) =~= dims@);
    }
    let count: usize = match prod_dims(&dims, dims.len()) {
        Some(v) => v,
        None => {
            return Err(Error::OutOfData);
        },
    };
    let objects = match next_arr_elems(a, &mut t, obj_type, count) {
        Ok(v) => v,
        Err(e) => {
            return Err(e);
        },
    };
    c.pos = t.pos;
    Ok(Array { obj_type, num_dims, dims, objects })
}

/// The product of the first `i` dimension sizes, `None` on overflow.
fn prod_dims(dims: &Vec<usize>, i: usize) -> (r: Option<usize>)
    requires
        i <= dims@.len(),
    ensures
        match r {
            Some(v) => prod_checked(dims@.take(i as int)) == Some(v as nat),
            None => prod_checked(dims@.take(i as int)) is None,
        },
    decreases i,
{
    if i == 0 {
        proof {
            assert(dims@.take(0).len() == 0);
        }
        Some(1)
    } else {
        match prod_dims(dims, i - 1) {
            None => {
                proof {
                    assert(dims@.take(i as int).drop_last() =~= dims@.take(i - 1));
                }
                None
            },
            Some(p) => {
                let r = p.checked_mul(dims[i - 1]);
                proof {
                    assert(dims@.take(i as int).drop_last() =~= dims@.take(i - 1));
                    assert(dims@.take(i as int).last() == dims@[i - 1]);
                }
                r
            },
        }
    }
}

/// Decode a precision integer body: a length-value framed
/// binary-coded-decimal payload, truncated into a machine integer.
pub fn next_integer(a: &[u8], c: &mut Cursor) -> (r: Result<i32, Error>)
    requires
        old(c).wf(a@),
        nibbles_wf(a@),
    ensures
        final(c).end == old(c).end,
        final(c).wf(a@),
        match r {
            Ok(v) => int_obj_at(a@, old(c).pos as int, old(c).end as int) == Ok::<
                (i32, int),
                Error,
            >((v, final(c).pos as int)) && final(c).pos >= old(c).pos,
            Err(e) => int_obj_at(a@, old(c).pos as int, old(c).end as int) == Err::<
                (i32, int),
                Error,
            >(e) && final(c).pos == old(c).pos,
        },
{
    let mut t = *c;
    let sub = match next_lv(a, &mut t) {
        Ok(s) => s,
        Err(e) => {
            return Err(e);
        },
    };
    let digits = decode_bcd(a, &sub);
    c.pos = t.pos;
    Ok(#[verifier::truncate] (digits as i32))
}

/// Whether the file starts with an accepted magic signature and is long
/// enough to hold the reserved header bytes.
pub open spec fn header_ok(bs: Seq<u8>) -> bool {
    &&& bs.len() >= 8
    &&& bs[0] == 0x48u8
    &&& bs[1] == 0x50u8
    &&& bs[2] == 0x48u8
    &&& bs[3] == 0x50u8
    &&& bs[4] == 0x34u8
    &&& (bs[5] == 0x38u8 || bs[5] == 0x39u8)
}

/// The object a whole file denotes: after the 6-byte magic signature and
/// two reserved bytes, the rest is expanded to the nibble arena and decoded
/// as one top-level object; trailing nibbles after a successful decode are
/// alignment padding and are discarded.
pub open spec fn file_obj(bs: Seq<u8>) -> Result<ObjV, Error> {
    if !header_ok(bs) {
        Err(Error::BadHeader)
    } else {
        let a = expand_bytes(bs.skip(8));
        match obj_at(a, 0, a.len() as int) {
            Err(e) => Err(e),
            Ok((o, _p)) => Ok(o),
        }
    }
}

/// Decode a whole file image: validate the magic signature, expand the
/// payload bytes into the nibble arena, and decode one top-level object.
pub fn parse_hp4x(bytes: &[u8]) -> (r: Result<Obj, Error>)
    ensures
        match r {
            Ok(o) => file_obj(bytes@) == Ok::<ObjV, Error>(o@),
            Err(e) => file_obj(bytes@) == Err::<ObjV, Error>(e),
        },
{
    if bytes.len() < 8 {
        return Err(Error::BadHeader);
    }
    if !(bytes[0] == 0x48 && bytes[1] == 0x50 && bytes[2] == 0x48 && bytes[3] == 0x50 && bytes[4]
        == 0x34 && (bytes[5] == 0x38 || bytes[5] == 0x39)) {
        return Err(Error::BadHeader);
    }
    let payload = vstd::slice::slice_subrange(bytes, 8, bytes.len());
    let nibs = extract_nibbles(payload);
    let arena = nibs.as_slice();
    let mut c = Cursor::over(arena);
    match next_obj(arena, &mut c) {
        Ok(o) => Ok(o),
        Err(e) => Err(e),
    }
}

} // verus!
