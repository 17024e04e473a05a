//! The library decoder: hash table, link table, message table,
//! visible/hidden object separation, backward-addressed entry headers and
//! the CRC trailer.
//!
//! The tables may appear in any physical order, so each is located through
//! its own offset field.  Every link-table target is an object whose
//! kind/owner/command header is stored in the 9 nibbles immediately
//! *before* the object's start; an entry whose stored library id matches
//! the library's own id is a visible XLIB command, any other is a hidden
//! (masked) object.  Gaps between consecutive link-table targets are probed
//! for opportunistically embedded extra objects; failures there are treated
//! as absence, never propagated.

use vstd::prelude::*;

use crate::nibbles::{
    nib_at, nibbles_wf, next_int, next_lv, next_offset, next_tlv, pascal_at, pascal_chars,
    pascal_len, pascal_string, pow16, previous_nibbles, Cursor,
};
use crate::consts::{DOARRY, DOHSTR};
use crate::{next_array, next_obj, obj_at, view_obj, view_objs, Error, Obj, ObjV};

verus! {

broadcast use vstd::std_specs::vec::axiom_vec_decreases_to_view, vstd::seq::axiom_seq_index_decreases;

/// A visible library command: its kind, owning library id, command number
/// and payload object.
#[derive(Debug)]
pub struct Xlib {
    pub kind: u16,
    pub library_number: u16,
    pub command_number: u16,
    pub object: Box<Obj>,
}

/// The name/command-number pairs recovered from a library's hash table, in
/// bucket order (name lengths 1 to 16).  Both lookup directions are served
/// from this one list; on duplicates the last insertion wins, as a map
/// populated in the same order would behave.
#[derive(Debug)]
pub struct HashTable {
    pub pairs: Vec<(String, u16)>,
}

/// A decoded library.
#[derive(Debug)]
pub struct Library {
    pub name: Option<String>,
    pub number: u16,
    pub message_table: Vec<String>,
    pub hash_table: HashTable,
    pub xlib: Vec<Xlib>,
    pub hidden_objects: Vec<Obj>,
    pub config_object: Option<Box<Obj>>,
    pub extra_objects: Vec<Obj>,
    pub crc: u16,
}

/// The mathematical model of an [`Xlib`].
pub struct XlibV {
    pub kind: u16,
    pub library_number: u16,
    pub command_number: u16,
    pub object: ObjV,
}

/// The mathematical model of a [`Library`]; the optional config object is
/// modelled as a sequence of zero or one objects.
pub struct LibraryV {
    pub name: Option<Seq<char>>,
    pub number: u16,
    pub message_table: Seq<Seq<char>>,
    pub hash_table: Seq<(Seq<char>, u16)>,
    pub xlib: Seq<XlibV>,
    pub hidden_objects: Seq<ObjV>,
    pub config_object: Seq<ObjV>,
    pub extra_objects: Seq<ObjV>,
    pub crc: u16,
}

/// The model of one visible command.
pub open spec fn view_xlib(x: Xlib) -> XlibV
    decreases x,
{
    XlibV {
        kind: x.kind,
        library_number: x.library_number,
        command_number: x.command_number,
        object: view_obj(*x.object),
    }
}

/// The models of a sequence of visible commands.
pub open spec fn view_xlibs(s: Seq<Xlib>) -> Seq<XlibV>
    decreases s,
{
    Seq::new(
        s.len(),
        |i: int|
            if 0 <= i < s.len() {
                view_xlib(s[i])
            } else {
                XlibV { kind: 0, library_number: 0, command_number: 0, object: ObjV::Semi }
            },
    )
}

/// The model of a hash-table pair list.
pub open spec fn view_pairs(s: Seq<(String, u16)>) -> Seq<(Seq<char>, u16)> {
    s.map(|_i: int, p: (String, u16)| (p.0@, p.1))
}

/// The command number registered for a name, the last registration
/// winning.
pub open spec fn cmd_lookup(ps: Seq<(Seq<char>, u16)>, name: Seq<char>) -> Option<u16>
    decreases ps.len(),
{
    if ps.len() == 0 {
        None
    } else if ps.last().0 == name {
        Some(ps.last().1)
    } else {
        cmd_lookup(ps.drop_last(), name)
    }
}

/// The name registered for a command number, the last registration
/// winning.
pub open spec fn cmd_name_lookup(ps: Seq<(Seq<char>, u16)>, cmd: u16) -> Option<Seq<char>>
    decreases ps.len(),
{
    if ps.len() == 0 {
        None
    } else if ps.last().1 == cmd {
        Some(ps.last().0)
    } else {
        cmd_name_lookup(ps.drop_last(), cmd)
    }
}

/// Search the first `i` pairs for a name, later pairs winning.
fn cmd_lookup_rec(ps: &Vec<(String, u16)>, i: usize, name: &String) -> (r: Option<u16>)
    requires
        i <= ps@.len(),
    ensures
        match r {
            Some(v) => cmd_lookup(view_pairs(ps@.take(i as int)), name@) == Some(v),
            None => cmd_lookup(view_pairs(ps@.take(i as int)), name@) is None,
        },
    decreases i,
{
    if i == 0 {
        proof {
            assert(view_pairs(ps@.take(0)).len() == 0);
        }
        None
    } else {
        proof {
            let es = view_pairs(ps@.take(i as int));
            assert(es.last() == (ps@[i - 1].0@, ps@[i - 1].1));
            assert(es.drop_last() =~= view_pairs(ps@.take(i - 1)));
        }
        if ps[i - 1].0.eq(name) {
            Some(ps[i - 1].1)
        } else {
            cmd_lookup_rec(ps, i - 1, name)
        }
    }
}

/// Search the first `i` pairs for a command number, later pairs winning.
fn cmd_name_lookup_rec(ps: &Vec<(String, u16)>, i: usize, cmd: u16) -> (r: Option<String>)
    requires
        i <= ps@.len(),
    ensures
        match r {
            Some(s) => cmd_name_lookup(view_pairs(ps@.take(i as int)), cmd) == Some(s@),
            None => cmd_name_lookup(view_pairs(ps@.take(i as int)), cmd) is None,
        },
    decreases i,
{
    if i == 0 {
        proof {
            assert(view_pairs(ps@.take(0)).len() == 0);
        }
        None
    } else {
        proof {
            let es = view_pairs(ps@.take(i as int));
            assert(es.last() == (ps@[i - 1].0@, ps@[i - 1].1));
            assert(es.drop_last() =~= view_pairs(ps@.take(i - 1)));
        }
        if ps[i - 1].1 == cmd {
            Some(ps[i - 1].0.clone())
        } else {
            cmd_name_lookup_rec(ps, i - 1, cmd)
        }
    }
}

impl Default for HashTable {
    /// The hash table of a library that has none: no pairs at all.
    fn default() -> (r: HashTable)
        ensures
            view_pairs(r.pairs@) == Seq::<(Seq<char>, u16)>::empty(),
    {
        HashTable::new()
    }
}

impl HashTable {
    /// An empty table.
    pub fn new() -> (r: HashTable)
        ensures
            view_pairs(r.pairs@) == Seq::<(Seq<char>, u16)>::empty(),
    {
        let r = HashTable { pairs: Vec::new() };
        proof {
            assert(view_pairs(r.pairs@) =~= Seq::<(Seq<char>, u16)>::empty());
        }
        r
    }

    /// Look up the command number of a visible name.
    pub fn name_to_cmd(&self, name: &String) -> (r: Option<u16>)
        ensures
            match r {
                Some(v) => cmd_lookup(view_pairs(self.pairs@), name@) == Some(v),
                None => cmd_lookup(view_pairs(self.pairs@), name@) is None,
            },
    {
        proof {
            assert(self.pairs@.take(self.pairs@.len() as int) =~= self.pairs@);
        }
        cmd_lookup_rec(&self.pairs, self.pairs.len(), name)
    }

    /// Look up the visible name of a command number.
    pub fn cmd_to_name(&self, cmd: u16) -> (r: Option<String>)
        ensures
            match r {
                Some(s) => cmd_name_lookup(view_pairs(self.pairs@), cmd) == Some(s@),
                None => cmd_name_lookup(view_pairs(self.pairs@), cmd) is None,
            },
    {
        proof {
            assert(self.pairs@.take(self.pairs@.len() as int) =~= self.pairs@);
        }
        cmd_name_lookup_rec(&self.pairs, self.pairs.len(), cmd)
    }
}

/// The model of a library.
pub open spec fn view_library(l: Library) -> LibraryV
    decreases l,
{
    LibraryV {
        name: match l.name {
            Option::None => None,
            Option::Some(s) => Some(s@),
        },
        number: l.number,
        message_table: l.message_table@.map(|_i: int, s: String| s@),
        hash_table: view_pairs(l.hash_table.pairs@),
        xlib: view_xlibs(l.xlib@),
        hidden_objects: view_objs(l.hidden_objects@),
        config_object: match l.config_object {
            Option::None => Seq::empty(),
            Option::Some(b) => seq![view_obj(*b)],
        },
        extra_objects: view_objs(l.extra_objects@),
        crc: l.crc,
    }
}

impl View for Library {
    type V = LibraryV;

    open spec fn view(&self) -> LibraryV {
        view_library(*self)
    }
}

impl View for Xlib {
    type V = XlibV;

    open spec fn view(&self) -> XlibV {
        view_xlib(*self)
    }
}

/// Specification reader for the 16 optional name-length-bucket offsets of a
/// hash table.
pub open spec fn opt_offsets_at(a: Seq<u8>, pos: int, end: int, n: nat) -> Result<
    (Seq<Option<int>>, int),
    Error,
>
    decreases n,
{
    if n == 0 {
        Ok((Seq::empty(), pos))
    } else {
        match crate::nibbles::offset_at(a, pos, end) {
            Err(e) => Err(e),
            Ok(t) => match opt_offsets_at(a, pos + 5, end, (n - 1) as nat) {
                Err(e) => Err(e),
                Ok((rest, p)) => Ok((seq![t] + rest, p)),
            },
        }
    }
}

/// The present targets among a list of optional offsets, in order.
pub open spec fn some_targets(offs: Seq<Option<int>>, i: int) -> Seq<int>
    decreases offs.len() - i,
{
    if i < 0 || i >= offs.len() {
        Seq::empty()
    } else {
        match offs[i] {
            None => some_targets(offs, i + 1),
            Some(t) => seq![t] + some_targets(offs, i + 1),
        }
    }
}

/// Specification parser for one hash bucket: (name, command-number) pairs
/// read until the cursor reaches the start of the next bucket or a
/// malformed or empty name is read.  Malformed entries end the bucket
/// silently: this leniency is deliberate, bucket contents are best-effort.
pub open spec fn bucket_entries_at(a: Seq<u8>, pos: int, bound: int, end: int) -> Seq<
    (Seq<char>, u16),
>
    decreases end - pos, 0int, 0int,
{
    if pos >= bound || pos < 0 || end > a.len() {
        Seq::empty()
    } else {
        match pascal_at(a, pos, end) {
            Err(_) => Seq::empty(),
            Ok((name, p1)) => {
                if pascal_len(a, pos) == 0 {
                    Seq::empty()
                } else if end - p1 < 3 {
                    Seq::empty()
                } else if p1 + 3 <= pos {
                    Seq::empty()
                } else {
                    seq![(name, nib_at(a, p1, 3) as u16)] + bucket_entries_at(a, p1 + 3, bound, end)
                }
            },
        }
    }
}

/// Specification parser for the bucket walk: for each present bucket, its
/// entries up to the start of the following bucket (the reverse-table
/// position bounds the last bucket).
pub open spec fn buckets_at(a: Seq<u8>, wp: int, we: int, buckets: Seq<int>, i: int, rev: int) -> Seq<
    (Seq<char>, u16),
>
    decreases we - wp, 1int, buckets.len() - i,
{
    if i < 0 || i >= buckets.len() {
        Seq::empty()
    } else {
        let bpos = buckets[i];
        let bound = if i == buckets.len() - 1 {
            rev
        } else {
            buckets[i + 1]
        };
        if bpos <= wp || bpos > we {
            Seq::empty()
        } else {
            bucket_entries_at(a, bpos, bound, we) + buckets_at(a, wp, we, buckets, i + 1, rev)
        }
    }
}

/// Specification parser for a hash table at `hp`: a tag-length-value frame
/// whose tag must be the binary-integer constant, 16 optional bucket
/// offsets, one mandatory offset to the reverse table, then the bucket
/// walk.
pub open spec fn hash_full_at(a: Seq<u8>, hp: int, le: int) -> Result<Seq<(Seq<char>, u16)>, Error>
    decreases le - hp, 2int, 0int,
{
    match crate::nibbles::tlv_at(a, hp, le) {
        Err(e) => Err(e),
        Ok((tag, wp, we)) => {
            if tag != DOHSTR {
                Err(Error::Mismatch)
            } else {
                match opt_offsets_at(a, wp, we, 16) {
                    Err(e) => Err(e),
                    Ok((offs, p16)) => match crate::nibbles::offset_at(a, p16, we) {
                        Err(e) => Err(e),
                        Ok(None) => Err(Error::Mismatch),
                        Ok(Some(rev)) => {
                            if wp < 0 || we > a.len() {
                                Err(Error::OutOfData)
                            } else {
                                Ok(buckets_at(a, wp, we, some_targets(offs, 0), 0, rev))
                            }
                        },
                    },
                }
            }
        },
    }
}

/// Specification reader for the mandatory object offsets of a link table.
pub open spec fn link_offsets_at(a: Seq<u8>, pos: int, end: int, n: nat) -> Result<
    (Seq<int>, int),
    Error,
>
    decreases n,
{
    if n == 0 {
        Ok((Seq::empty(), pos))
    } else {
        match crate::nibbles::offset_at(a, pos, end) {
            Err(e) => Err(e),
            Ok(None) => Err(Error::Mismatch),
            Ok(Some(t)) => match link_offsets_at(a, pos + 5, end, (n - 1) as nat) {
                Err(e) => Err(e),
                Ok((rest, p)) => Ok((seq![t] + rest, p)),
            },
        }
    }
}

/// Specification parser for a link table at `lp`: a verified
/// binary-integer tag, a size whose value divided by five, less one, gives
/// the count of mandatory offsets, one per library-owned object.
pub open spec fn link_full_at(a: Seq<u8>, lp: int, le: int) -> Result<Seq<int>, Error> {
    if le - lp < 5 {
        Err(Error::OutOfData)
    } else if nib_at(a, lp, 5) as u32 != DOHSTR {
        Err(Error::Mismatch)
    } else if le - lp < 10 {
        Err(Error::OutOfData)
    } else {
        let size = nib_at(a, lp + 5, 5);
        if size / 5 < 1 {
            Err(Error::Mismatch)
        } else {
            match link_offsets_at(a, lp + 10, le, (size / 5 - 1) as nat) {
                Err(e) => Err(e),
                Ok((links, _p)) => Ok(links),
            }
        }
    }
}

/// All elements of an object list must be character strings; the result is
/// the ordered list of their texts, any other element kind is a structural
/// mismatch.
pub open spec fn msgs_of(objs: Seq<ObjV>, i: int) -> Result<Seq<Seq<char>>, Error>
    decreases objs.len() - i,
{
    if i < 0 || i >= objs.len() {
        Ok(Seq::empty())
    } else {
        match objs[i] {
            ObjV::CStr(s) => match msgs_of(objs, i + 1) {
                Err(e) => Err(e),
                Ok(rest) => Ok(seq![s] + rest),
            },
            _ => Err(Error::Mismatch),
        }
    }
}

/// Specification parser for a message table at `mp`: a verified array tag,
/// then an array every element of which must be a character string.
pub open spec fn msg_full_at(a: Seq<u8>, mp: int, le: int) -> Result<Seq<Seq<char>>, Error>
    decreases le - mp, 0int, 2int,
{
    if le - mp < 5 {
        Err(Error::OutOfData)
    } else if nib_at(a, mp, 5) as u32 != DOARRY {
        Err(Error::Mismatch)
    } else {
        match crate::array_at(a, mp + 5, le) {
            Err(e) => Err(e),
            Ok((arr, _p)) => msgs_of(arr.objects, 0),
        }
    }
}

/// The backward-addressed header of a link-table target at `t`: within the
/// 9 nibbles before `t`, a probe on the high bit of the nibble 7 positions
/// back decides whether the kind field is the bottom nibble alone or the
/// full 3-nibble field; the owning library id and the command number
/// follow.
pub open spec fn xlib_header_at(a: Seq<u8>, t: int) -> (u16, u16, u16) {
    let probe = a[t - 7];
    let kind: u16 = if probe & 0x8 == 0 {
        probe as u16
    } else {
        nib_at(a, t - 9, 3) as u16
    };
    (kind, nib_at(a, t - 6, 3) as u16, nib_at(a, t - 3, 3) as u16)
}

/// Specification parser for the link-table target walk: in table order,
/// each target is probed for a gap-embedded extra object, skipped if it is
/// the config object's position, and otherwise decoded together with its
/// backward header; a matching stored library id makes a visible command,
/// any other a hidden object.  The result triple is (visible commands,
/// hidden objects, extra objects).
pub open spec fn xlibs_at(
    a: Seq<u8>,
    ls: int,
    le: int,
    links: Seq<int>,
    i: int,
    last_end: int,
    number: u16,
    cfg_pos: int,
) -> Result<(Seq<XlibV>, Seq<ObjV>, Seq<ObjV>), Error>
    decreases le - ls, 3int, links.len() - i,
{
    if i < 0 || i >= links.len() {
        Ok((Seq::empty(), Seq::empty(), Seq::empty()))
    } else {
        let target = links[i];
        if target < ls || target > le || le > a.len() {
            Err(Error::OutOfData)
        } else {
            let extra: Seq<ObjV> = if last_end != 0 && ls <= last_end && last_end + 10 < target {
                if last_end + 16 <= target {
                    match obj_at(a, last_end + 16, target) {
                        Err(_) => Seq::empty(),
                        Ok((o, _)) => seq![o],
                    }
                } else {
                    Seq::empty()
                }
            } else {
                Seq::empty()
            };
            if target == cfg_pos {
                match xlibs_at(a, ls, le, links, i + 1, last_end, number, cfg_pos) {
                    Err(e) => Err(e),
                    Ok((xs, hs, es)) => Ok((xs, hs, extra + es)),
                }
            } else if target < 9 {
                Err(Error::OutOfData)
            } else {
                let hdr = xlib_header_at(a, target);
                match obj_at(a, target, le) {
                    Err(e) => Err(e),
                    Ok((o, p2)) => {
                        if p2 < ls || p2 > le {
                            Err(Error::OutOfData)
                        } else {
                            match xlibs_at(a, ls, le, links, i + 1, p2, number, cfg_pos) {
                                Err(e) => Err(e),
                                Ok((xs, hs, es)) => {
                                    if hdr.1 == number {
                                        Ok(
                                            (
                                                seq![
                                                    XlibV {
                                                        kind: hdr.0,
                                                        library_number: hdr.1,
                                                        command_number: hdr.2,
                                                        object: o,
                                                    },
                                                ] + xs,
                                                hs,
                                                extra + es,
                                            ),
                                        )
                                    } else {
                                        Ok((xs, seq![o] + hs, extra + es))
                                    }
                                },
                            }
                        }
                    },
                }
            }
        }
    }
}

/// Specification parser for a whole library body over `[ls, le)`: the
/// optional name with its length echo, the library id, the four table
/// offsets in fixed field order (hash, message, link, config), each table
/// located through its own offset, the link-table target walk, the
/// optional config object, and the 4-nibble CRC trailer at the end of the
/// body (its value is stored, never checked).
/// Specification parser for a library's optional name: a zero first length
/// field means the name is absent and no second length field follows;
/// otherwise the characters are read and a repeated 2-nibble length echo
/// must match.
pub open spec fn lib_name_at(a: Seq<u8>, ls: int, le: int) -> Result<
    (Option<Seq<char>>, int),
    Error,
> {
    let l = pascal_len(a, ls);
    if le - ls < 2 {
        Err(Error::OutOfData)
    } else if l == 0 {
        Ok((None, ls + 2))
    } else if 2 * l > le - ls - 2 {
        Err(Error::OutOfData)
    } else if le - (ls + 2 + 2 * l) < 2 {
        Err(Error::OutOfData)
    } else if nib_at(a, ls + 2 + 2 * l, 2) != l {
        Err(Error::Mismatch)
    } else {
        Ok((Some(pascal_chars(a, ls)), ls + 2 + 2 * l + 2))
    }
}

pub open spec fn lib_at(a: Seq<u8>, ls: int, le: int) -> Result<LibraryV, Error>
    decreases le - ls, 4int, 2int,
{
    {
        match lib_name_at(a, ls, le) {
            Err(e) => Err(e),
            Ok((name, p)) => {
                if le - p < 3 {
                    Err(Error::OutOfData)
                } else {
                    let number = nib_at(a, p, 3) as u16;
                    match crate::nibbles::offset_at(a, p + 3, le) {
                        Err(e) => Err(e),
                        Ok(hash_t) => match crate::nibbles::offset_at(a, p + 8, le) {
                            Err(e) => Err(e),
                            Ok(msg_t) => match crate::nibbles::offset_at(a, p + 13, le) {
                                Err(e) => Err(e),
                                Ok(link_t) => match crate::nibbles::offset_at(a, p + 18, le) {
                                    Err(e) => Err(e),
                                    Ok(cfg_t) => lib_tables_at(
                                        a,
                                        ls,
                                        le,
                                        name,
                                        number,
                                        hash_t,
                                        msg_t,
                                        link_t,
                                        cfg_t,
                                    ),
                                },
                            },
                        },
                    }
                }
            },
        }
    }
}

/// The table-decoding half of [`lib_at`], from the resolved offsets on.
pub open spec fn lib_tables_at(
    a: Seq<u8>,
    ls: int,
    le: int,
    name: Option<Seq<char>>,
    number: u16,
    hash_t: Option<int>,
    msg_t: Option<int>,
    link_t: Option<int>,
    cfg_t: Option<int>,
) -> Result<LibraryV, Error>
    decreases le - ls, 4int, 1int,
{
    let hash_res: Result<Seq<(Seq<char>, u16)>, Error> = match hash_t {
        None => Ok(Seq::empty()),
        Some(hp) => {
            if hp <= ls {
                Err(Error::OutOfData)
            } else {
                hash_full_at(a, hp, le)
            }
        },
    };
    match hash_res {
        Err(e) => Err(e),
        Ok(hash) => {
            let link_res: Result<Seq<int>, Error> = match link_t {
                None => Ok(Seq::empty()),
                Some(lp) => {
                    if lp <= ls {
                        Err(Error::OutOfData)
                    } else {
                        link_full_at(a, lp, le)
                    }
                },
            };
            match link_res {
                Err(e) => Err(e),
                Ok(links) => {
                    let msg_res: Result<Seq<Seq<char>>, Error> = match msg_t {
                        None => Ok(Seq::empty()),
                        Some(mp) => {
                            if mp <= ls || mp > le {
                                Err(Error::OutOfData)
                            } else {
                                msg_full_at(a, mp, le)
                            }
                        },
                    };
                    match msg_res {
                        Err(e) => Err(e),
                        Ok(msgs) => {
                            let cfg_pos: int = match cfg_t {
                                None => 0,
                                Some(cp) => cp,
                            };
                            match xlibs_at(a, ls, le, links, 0, 0, number, cfg_pos) {
                                Err(e) => Err(e),
                                Ok((xs, hs, es)) => {
                                    let cfg_res: Result<Seq<ObjV>, Error> = match cfg_t {
                                        None => Ok(Seq::empty()),
                                        Some(cp) => {
                                            if cp <= ls || cp > le {
                                                Err(Error::OutOfData)
                                            } else {
                                                match obj_at(a, cp, le) {
                                                    Err(e) => Err(e),
                                                    Ok((o, _)) => Ok(seq![o]),
                                                }
                                            }
                                        },
                                    };
                                    match cfg_res {
                                        Err(e) => Err(e),
                                        Ok(cfg) => {
                                            if le - ls < 4 {
                                                Err(Error::OutOfData)
                                            } else {
                                                Ok(
                                                    LibraryV {
                                                        name,
                                                        number,
                                                        message_table: msgs,
                                                        hash_table: hash,
                                                        xlib: xs,
                                                        hidden_objects: hs,
                                                        config_object: cfg,
                                                        extra_objects: es,
                                                        crc: nib_at(a, le - 4, 4) as u16,
                                                    },
                                                )
                                            }
                                        },
                                    }
                                },
                            }
                        },
                    }
                },
            }
        },
    }
}

/// The integer positions of a list of machine positions.
pub open spec fn positions(s: Seq<usize>) -> Seq<int> {
    s.map(|_i: int, p: usize| p as int)
}

/// The integer targets of a list of optional machine positions.
pub open spec fn view_opts(s: Seq<Option<usize>>) -> Seq<Option<int>> {
    s.map(
        |_i: int, o: Option<usize>|
            match o {
                Option::None => None,
                Option::Some(p) => Some(p as int),
            },
    )
}

/// Read the backward-addressed header of the link-table target at the
/// view's position.  Fails with `OutOfData` exactly when fewer than 9
/// nibbles precede the target.
fn find_xlib_header(a: &[u8], target: &Cursor) -> (r: Result<(u16, u16, u16), Error>)
    requires
        target.wf(a@),
        nibbles_wf(a@),
    ensures
        match r {
            Ok(h) => target.pos >= 9 && h == xlib_header_at(a@, target.pos as int),
            Err(e) => e == Error::OutOfData && target.pos < 9,
        },
{
    let mut w = match previous_nibbles(target, 9) {
        Ok(w) => w,
        Err(e) => {
            return Err(e);
        },
    };
    proof {
        reveal_with_fuel(pow16, 4);
    }
    let probe = a[w.pos + 2];
    let kind: u16 = if probe & 0x8 == 0 {
        let _hi = match next_int(a, &mut w, 2) {
            Ok(v) => v,
            Err(e) => {
                return Err(e);
            },
        };
        let k = match next_int(a, &mut w, 1) {
            Ok(v) => v,
            Err(e) => {
                return Err(e);
            },
        };
        proof {
            let s = a@.subrange(target.pos - 7, target.pos - 6);
            assert(s.len() == 1 && s[0] == a@[target.pos - 7]);
            assert(s.skip(1).len() == 0);
        }
        k as u16
    } else {
        let k = match next_int(a, &mut w, 3) {
            Ok(v) => v,
            Err(e) => {
                return Err(e);
            },
        };
        k as u16
    };
    let lnum = match next_int(a, &mut w, 3) {
        Ok(v) => v,
        Err(e) => {
            return Err(e);
        },
    };
    let cmd = match next_int(a, &mut w, 3) {
        Ok(v) => v,
        Err(e) => {
            return Err(e);
        },
    };
    Ok((kind, lnum as u16, cmd as u16))
}

/// Read the 16 optional bucket offsets of a hash table.
fn next_opt_offsets(a: &[u8], c: &mut Cursor, n: usize) -> (r: Result<Vec<Option<usize>>, Error>)
    requires
        old(c).wf(a@),
        nibbles_wf(a@),
    ensures
        final(c).end == old(c).end,
        final(c).wf(a@),
        match r {
            Ok(offs) => opt_offsets_at(a@, old(c).pos as int, old(c).end as int, n as nat) == Ok::<
                (Seq<Option<int>>, int),
                Error,
            >((view_opts(offs@), final(c).pos as int)) && final(c).pos >= old(c).pos && (forall|
                j: int,
            |
                0 <= j < offs@.len() ==> ((#[trigger] offs@[j]) matches Some(p) ==> old(c).pos < p
                    < old(c).end)),
            Err(e) => opt_offsets_at(a@, old(c).pos as int, old(c).end as int, n as nat) == Err::<
                (Seq<Option<int>>, int),
                Error,
            >(e) && final(c).pos == old(c).pos,
        },
    decreases n,
{
    if n == 0 {
        let empty: Vec<Option<usize>> = Vec::new();
        proof {
            assert(view_opts(empty@) =~= Seq::<Option<int>>::empty());
        }
        return Ok(empty);
    }
    let mut t = *c;
    let opt = match next_offset(a, &mut t) {
        Ok(o) => o,
        Err(e) => {
            return Err(e);
        },
    };
    let first: Option<usize> = match opt {
        None => None,
        Some(tc) => Some(tc.pos),
    };
    let mut rest = match next_opt_offsets(a, &mut t, n - 1) {
        Ok(v) => v,
        Err(e) => {
            return Err(e);
        },
    };
    let ghost rest0 = rest@;
    rest.insert(0, first);
    c.pos = t.pos;
    proof {
        assert(view_opts(rest@) =~= seq![view_opts(rest@)[0]] + view_opts(rest0));
    }
    Ok(rest)
}

/// The present bucket targets among the optional offsets, from `i` on.
fn next_some_targets(offs: &Vec<Option<usize>>, i: usize) -> (r: Vec<usize>)
    requires
        i <= offs@.len(),
    ensures
        positions(r@) == some_targets(view_opts(offs@), i as int),
    decreases offs@.len() - i,
{
    if i >= offs.len() {
        let empty: Vec<usize> = Vec::new();
        proof {
            assert(positions(empty@) =~= Seq::<int>::empty());
        }
        return empty;
    }
    let mut rest = next_some_targets(offs, i + 1);
    let ghost rest0 = rest@;
    match offs[i] {
        None => {
            proof {
                assert(view_opts(offs@)[i as int] is None);
            }
            rest
        },
        Some(p) => {
            rest.insert(0, p);
            proof {
                assert(view_opts(offs@)[i as int] == Some(p as int));
                assert(positions(rest@) =~= seq![p as int] + positions(rest0));
            }
            rest
        },
    }
}

/// Every present target keeps the bounds that hold of the optional list it
/// was filtered from.
proof fn lemma_some_targets_bounds(offs: Seq<Option<int>>, i: int, lo: int, hi: int)
    requires
        forall|j: int|
            0 <= j < offs.len() ==> ((#[trigger] offs[j]) matches Some(p) ==> lo < p < hi),
    ensures
        forall|j: int|
            0 <= j < some_targets(offs, i).len() ==> lo < #[trigger] some_targets(offs, i)[j]
                && some_targets(offs, i)[j] < hi,
    decreases offs.len() - i,
{
    if 0 <= i < offs.len() {
        lemma_some_targets_bounds(offs, i + 1, lo, hi);
        match offs[i] {
            None => {
                assert(some_targets(offs, i) == some_targets(offs, i + 1));
            },
            Some(t) => {
                assert(some_targets(offs, i) == seq![t] + some_targets(offs, i + 1));
                assert forall|j: int|
                    0 <= j < some_targets(offs, i).len() implies lo < some_targets(offs, i)[j]
                    && some_targets(offs, i)[j] < hi by {
                    if j > 0 {
                        assert(some_targets(offs, i)[j] == some_targets(offs, i + 1)[j - 1]);
                    }
                }
            },
        }
    }
}

/// Decode one hash bucket: (name, command-number) pairs until the bucket's
/// bound is reached or a malformed or empty name ends it silently.
fn next_bucket_entries(a: &[u8], pos: usize, bound: usize, we: usize) -> (r: Vec<(String, u16)>)
    requires
        nibbles_wf(a@),
        pos <= we <= a@.len(),
    ensures
        view_pairs(r@) == bucket_entries_at(a@, pos as int, bound as int, we as int),
    decreases we - pos,
{
    if pos >= bound {
        let empty: Vec<(String, u16)> = Vec::new();
        proof {
            assert(view_pairs(empty@) =~= Seq::<(Seq<char>, u16)>::empty());
        }
        return empty;
    }
    let mut cur = Cursor { pos, end: we };
    let name = match pascal_string(a, &mut cur) {
        Ok(s) => s,
        Err(_) => {
            let empty: Vec<(String, u16)> = Vec::new();
            proof {
                assert(view_pairs(empty@) =~= Seq::<(Seq<char>, u16)>::empty());
            }
            return empty;
        },
    };
    let lval: usize = (cur.pos - pos - 2) / 2;
    if lval == 0 || we - cur.pos < 3 {
        let empty: Vec<(String, u16)> = Vec::new();
        proof {
            assert(view_pairs(empty@) =~= Seq::<(Seq<char>, u16)>::empty());
        }
        return empty;
    }
    let cmd64 = match next_int(a, &mut cur, 3) {
        Ok(v) => v,
        Err(_) => {
            // three nibbles are known to remain, so this arm cannot be taken
            let empty: Vec<(String, u16)> = Vec::new();
            return empty;
        },
    };
    proof {
        reveal_with_fuel(pow16, 4);
    }
    let mut rest = next_bucket_entries(a, cur.pos, bound, we);
    let ghost rest0 = rest@;
    rest.insert(0, (name, cmd64 as u16));
    proof {
        assert(view_pairs(rest@) =~= seq![(rest@[0].0@, rest@[0].1)] + view_pairs(rest0));
    }
    rest
}

/// Walk the present buckets in order, each bounded by the start of the
/// following bucket (the reverse-table position bounds the last one).
fn next_buckets(a: &[u8], wp: usize, we: usize, buckets: &Vec<usize>, i: usize, rev: usize) -> (r:
    Vec<(String, u16)>)
    requires
        nibbles_wf(a@),
        wp <= we <= a@.len(),
        i <= buckets@.len(),
        rev <= we,
        forall|j: int| 0 <= j < buckets@.len() ==> wp < buckets@[j] && buckets@[j] < we,
    ensures
        view_pairs(r@) == buckets_at(
            a@,
            wp as int,
            we as int,
            positions(buckets@),
            i as int,
            rev as int,
        ),
    decreases buckets@.len() - i,
{
    if i >= buckets.len() {
        let empty: Vec<(String, u16)> = Vec::new();
        proof {
            assert(view_pairs(empty@) =~= Seq::<(Seq<char>, u16)>::empty());
        }
        return empty;
    }
    let bpos = buckets[i];
    let bound: usize = if i == buckets.len() - 1 {
        rev
    } else {
        buckets[i + 1]
    };
    let mut es = next_bucket_entries(a, bpos, bound, we);
    let ghost es0 = es@;
    let mut rest = next_buckets(a, wp, we, buckets, i + 1, rev);
    let ghost restv = rest@;
    es.append(&mut rest);
    proof {
        assert(view_pairs(es@) =~= view_pairs(es0) + view_pairs(restv));
    }
    es
}

/// Decode a whole hash table located at the given view.
pub(crate) fn next_hash_table(a: &[u8], hp: Cursor) -> (r: Result<Vec<(String, u16)>, Error>)
    requires
        hp.wf(a@),
        nibbles_wf(a@),
    ensures
        match r {
            Ok(ps) => hash_full_at(a@, hp.pos as int, hp.end as int) == Ok::<
                Seq<(Seq<char>, u16)>,
                Error,
            >(view_pairs(ps@)),
            Err(e) => hash_full_at(a@, hp.pos as int, hp.end as int) == Err::<
                Seq<(Seq<char>, u16)>,
                Error,
            >(e),
        },
{
    let mut t = hp;
    let (tag, w) = match next_tlv(a, &mut t) {
        Ok(v) => v,
        Err(e) => {
            return Err(e);
        },
    };
    if tag != DOHSTR {
        return Err(Error::Mismatch);
    }
    let mut cur = w;
    let offs = match next_opt_offsets(a, &mut cur, 16) {
        Ok(v) => v,
        Err(e) => {
            return Err(e);
        },
    };
    let rev_t = match next_offset(a, &mut cur) {
        Ok(o) => o,
        Err(e) => {
            return Err(e);
        },
    };
    let rev: usize = match rev_t {
        None => {
            return Err(Error::Mismatch);
        },
        Some(rc) => rc.pos,
    };
    let present = next_some_targets(&offs, 0);
    proof {
        lemma_some_targets_bounds(view_opts(offs@), 0, w.pos as int, w.end as int);
        assert forall|j: int|
            0 <= j < present@.len() implies w.pos < present@[j] && present@[j] < w.end by {
            assert(positions(present@)[j] == present@[j] as int);
            assert(some_targets(view_opts(offs@), 0)[j] == positions(present@)[j]);
        }
    }
    let ps = next_buckets(a, w.pos, w.end, &present, 0, rev);
    Ok(ps)
}

/// Read the mandatory object offsets of a link table.
fn next_link_offsets(a: &[u8], c: &mut Cursor, n: usize) -> (r: Result<Vec<usize>, Error>)
    requires
        old(c).wf(a@),
        nibbles_wf(a@),
    ensures
        final(c).end == old(c).end,
        final(c).wf(a@),
        match r {
            Ok(ls_) => link_offsets_at(a@, old(c).pos as int, old(c).end as int, n as nat) == Ok::<
                (Seq<int>, int),
                Error,
            >((positions(ls_@), final(c).pos as int)) && final(c).pos >= old(c).pos && (forall|
                j: int,
            | 0 <= j < ls_@.len() ==> old(c).pos < ls_@[j] && ls_@[j] < old(c).end),
            Err(e) => link_offsets_at(a@, old(c).pos as int, old(c).end as int, n as nat) == Err::<
                (Seq<int>, int),
                Error,
            >(e) && final(c).pos == old(c).pos,
        },
    decreases n,
{
    if n == 0 {
        let empty: Vec<usize> = Vec::new();
        proof {
            assert(positions(empty@) =~= Seq::<int>::empty());
        }
        return Ok(empty);
    }
    let mut t = *c;
    let opt = match next_offset(a, &mut t) {
        Ok(o) => o,
        Err(e) => {
            return Err(e);
        },
    };
    let first: usize = match opt {
        None => {
            return Err(Error::Mismatch);
        },
        Some(tc) => tc.pos,
    };
    let mut rest = match next_link_offsets(a, &mut t, n - 1) {
        Ok(v) => v,
        Err(e) => {
            return Err(e);
        },
    };
    let ghost rest0 = rest@;
    rest.insert(0, first);
    c.pos = t.pos;
    proof {
        assert(positions(rest@) =~= seq![first as int] + positions(rest0));
    }
    Ok(rest)
}

/// Decode a link table located at the given view: the verified tag, the
/// size that yields the offset count, then one mandatory offset per
/// library-owned object.
pub(crate) fn next_link_table(a: &[u8], lt: Cursor) -> (r: Result<Vec<usize>, Error>)
    requires
        lt.wf(a@),
        nibbles_wf(a@),
    ensures
        match r {
            Ok(ls_) => link_full_at(a@, lt.pos as int, lt.end as int) == Ok::<Seq<int>, Error>(
                positions(ls_@),
            ) && (forall|j: int| 0 <= j < ls_@.len() ==> lt.pos < ls_@[j] && ls_@[j] < lt.end),
            Err(e) => link_full_at(a@, lt.pos as int, lt.end as int) == Err::<Seq<int>, Error>(e),
        },
{
    let mut t = lt;
    let tag64 = match next_int(a, &mut t, 5) {
        Ok(v) => v,
        Err(e) => {
            return Err(e);
        },
    };
    if tag64 as u32 != DOHSTR {
        return Err(Error::Mismatch);
    }
    let size64 = match next_int(a, &mut t, 5) {
        Ok(v) => v,
        Err(e) => {
            return Err(e);
        },
    };
    proof {
        reveal_with_fuel(pow16, 6);
        assert(size64 < 0x100000);
    }
    let size: usize = size64 as usize;
    if size / 5 < 1 {
        return Err(Error::Mismatch);
    }
    let n: usize = size / 5 - 1;
    match next_link_offsets(a, &mut t, n) {
        Ok(v) => Ok(v),
        Err(e) => Err(e),
    }
}

/// All elements of a decoded message array must be character strings;
/// collect their texts in order.
fn next_msgs(objs: &Vec<Obj>, i: usize) -> (r: Result<Vec<String>, Error>)
    requires
        i <= objs@.len(),
    ensures
        match r {
            Ok(ms) => msgs_of(view_objs(objs@), i as int) == Ok::<Seq<Seq<char>>, Error>(
                ms@.map(|_i: int, s: String| s@),
            ),
            Err(e) => msgs_of(view_objs(objs@), i as int) == Err::<Seq<Seq<char>>, Error>(e),
        },
    decreases objs@.len() - i,
{
    if i >= objs.len() {
        let empty: Vec<String> = Vec::new();
        proof {
            assert(empty@.map(|_i: int, s: String| s@) =~= Seq::<Seq<char>>::empty());
        }
        return Ok(empty);
    }
    match &objs[i] {
        Obj::CStr(sb) => {
            let s = sb.0.clone();
            let mut rest = match next_msgs(objs, i + 1) {
                Ok(v) => v,
                Err(e) => {
                    return Err(e);
                },
            };
            let ghost rest0 = rest@;
            rest.insert(0, s);
            proof {
                assert(view_objs(objs@)[i as int] == view_obj(objs@[i as int]));
                assert(rest@.map(|_i: int, s: String| s@) =~= seq![rest@[0]@] + rest0.map(
                    |_i: int, s: String| s@,
                ));
            }
            Ok(rest)
        },
        _ => {
            proof {
                assert(view_objs(objs@)[i as int] == view_obj(objs@[i as int]));
            }
            Err(Error::Mismatch)
        },
    }
}

/// Decode a message table located at the given view: a verified array tag,
/// then an array whose every element must be a character string.
pub(crate) fn next_message_table(a: &[u8], mt: Cursor) -> (r: Result<Vec<String>, Error>)
    requires
        mt.wf(a@),
        nibbles_wf(a@),
    ensures
        match r {
            Ok(ms) => msg_full_at(a@, mt.pos as int, mt.end as int) == Ok::<Seq<Seq<char>>, Error>(
                ms@.map(|_i: int, s: String| s@),
            ),
            Err(e) => msg_full_at(a@, mt.pos as int, mt.end as int) == Err::<
                Seq<Seq<char>>,
                Error,
            >(e),
        },
    decreases mt.end - mt.pos, 0int, 2int,
{
    let mut t = mt;
    let tag64 = match next_int(a, &mut t, 5) {
        Ok(v) => v,
        Err(e) => {
            return Err(e);
        },
    };
    if tag64 as u32 != DOARRY {
        return Err(Error::Mismatch);
    }
    let arr = match next_array(a, &mut t) {
        Ok(v) => v,
        Err(e) => {
            return Err(e);
        },
    };
    next_msgs(&arr.objects, 0)
}

/// Walk the link-table targets in order, separating visible commands,
/// hidden objects and gap-embedded extra objects.
#[verifier::rlimit(100)]
#[verifier::spinoff_prover]
fn next_xlibs(
    a: &[u8],
    links: &Vec<usize>,
    i: usize,
    last_end: usize,
    number: u16,
    cfg_pos: usize,
    ls: usize,
    le: usize,
) -> (r: Result<(Vec<Xlib>, Vec<Obj>, Vec<Obj>), Error>)
    requires
        nibbles_wf(a@),
        ls <= le <= a@.len(),
        i <= links@.len(),
        last_end == 0 || (ls <= last_end && last_end <= le),
        forall|j: int| 0 <= j < links@.len() ==> ls < links@[j] && links@[j] <= le,
    ensures
        match r {
            Ok(t3) => xlibs_at(
                a@,
                ls as int,
                le as int,
                positions(links@),
                i as int,
                last_end as int,
                number,
                cfg_pos as int,
            ) == Ok::<(Seq<XlibV>, Seq<ObjV>, Seq<ObjV>), Error>(
                (view_xlibs(t3.0@), view_objs(t3.1@), view_objs(t3.2@)),
            ),
            Err(e) => xlibs_at(
                a@,
                ls as int,
                le as int,
                positions(links@),
                i as int,
                last_end as int,
                number,
                cfg_pos as int,
            ) == Err::<(Seq<XlibV>, Seq<ObjV>, Seq<ObjV>), Error>(e),
        },
    decreases le - ls, 3int, links@.len() - i,
{
    if i >= links.len() {
        let empty: (Vec<Xlib>, Vec<Obj>, Vec<Obj>) = (Vec::new(), Vec::new(), Vec::new());
        proof {
            assert(view_xlibs(empty.0@) =~= Seq::<XlibV>::empty());
            assert(view_objs(empty.1@) =~= Seq::<ObjV>::empty());
            assert(view_objs(empty.2@) =~= Seq::<ObjV>::empty());
        }
        return Ok(empty);
    }
    let target = links[i];
    let mut extra: Option<Obj> = None;
    if last_end != 0 && target > last_end && target - last_end > 10 && target - last_end >= 16 {
        let mut gc = Cursor { pos: last_end + 16, end: target };
        match next_obj(a, &mut gc) {
            Ok(o) => {
                extra = Some(o);
            },
            Err(_) => {},
        }
    }
    let ghost extra_v: Seq<ObjV> = match &extra {
        Option::Some(o) => seq![view_obj(*o)],
        Option::None => Seq::empty(),
    };
    if target == cfg_pos {
        let (xs, hs, mut es) = match next_xlibs(a, links, i + 1, last_end, number, cfg_pos, ls, le)
        {
            Ok(v) => v,
            Err(e) => {
                return Err(e);
            },
        };
        let ghost es0 = es@;
        match extra {
            Some(o2) => {
                es.insert(0, o2);
            },
            None => {},
        }
        proof {
            assert(view_objs(es@) =~= extra_v + view_objs(es0));
        }
        Ok((xs, hs, es))
    } else {
        let tc = Cursor { pos: target, end: le };
        let hdr = match find_xlib_header(a, &tc) {
            Ok(h) => h,
            Err(e) => {
                return Err(e);
            },
        };
        let mut oc = tc;
        let o = match next_obj(a, &mut oc) {
            Ok(o) => o,
            Err(e) => {
                return Err(e);
            },
        };
        let ghost ov = view_obj(o);
        let p2 = oc.pos;
        let (mut xs, mut hs, mut es) = match next_xlibs(a, links, i + 1, p2, number, cfg_pos, ls, le)
        {
            Ok(v) => v,
            Err(e) => {
                return Err(e);
            },
        };
        let ghost xs0 = xs@;
        let ghost hs0 = hs@;
        let ghost es0 = es@;
        if hdr.1 == number {
            xs.insert(
                0,
                Xlib {
                    kind: hdr.0,
                    library_number: hdr.1,
                    command_number: hdr.2,
                    object: Box::new(o),
                },
            );
            proof {
                assert(view_xlibs(xs@) =~= seq![view_xlib(xs@[0])] + view_xlibs(xs0));
            }
        } else {
            hs.insert(0, o);
            proof {
                assert(view_objs(hs@) =~= seq![view_obj(hs@[0])] + view_objs(hs0));
            }
        }
        match extra {
            Some(o2) => {
                es.insert(0, o2);
            },
            None => {},
        }
        proof {
            assert(view_objs(es@) =~= extra_v + view_objs(es0));
        }
        Ok((xs, hs, es))
    }
}

/// Decode a library body over the given window (its tag and length frame
/// have been consumed): name, id, the four table offsets, the tables they
/// locate, the link-table target walk, the optional config object, and the
/// CRC trailer in the last four nibbles of the window.
#[verifier::rlimit(100)]
#[verifier::spinoff_prover]
pub(crate) fn next_library(a: &[u8], w: Cursor) -> (r: Result<Library, Error>)
    requires
        w.wf(a@),
        nibbles_wf(a@),
    ensures
        match r {
            Ok(l) => lib_at(a@, w.pos as int, w.end as int) == Ok::<LibraryV, Error>(
                view_library(l),
            ),
            Err(e) => lib_at(a@, w.pos as int, w.end as int) == Err::<LibraryV, Error>(e),
        },
    decreases w.end - w.pos, 4int, 2int,
{
    let ls = w.pos;
    let le = w.end;
    let (name, mut t) = match next_lib_name(a, w) {
        Ok(v) => v,
        Err(e) => {
            return Err(e);
        },
    };
    let num64 = match next_int(a, &mut t, 3) {
        Ok(v) => v,
        Err(e) => {
            return Err(e);
        },
    };
    proof {
        reveal_with_fuel(pow16, 4);
    }
    let number: u16 = num64 as u16;
    let hash_t = match next_offset(a, &mut t) {
        Ok(o) => o,
        Err(e) => {
            return Err(e);
        },
    };
    let msg_t = match next_offset(a, &mut t) {
        Ok(o) => o,
        Err(e) => {
            return Err(e);
        },
    };
    let link_t = match next_offset(a, &mut t) {
        Ok(o) => o,
        Err(e) => {
            return Err(e);
        },
    };
    let cfg_t = match next_offset(a, &mut t) {
        Ok(o) => o,
        Err(e) => {
            return Err(e);
        },
    };
    next_lib_tables(a, name, number, hash_t, msg_t, link_t, cfg_t, ls, le)
}

/// Decode a library's optional name: a zero first length field means the
/// name is absent and no second length field follows; otherwise the
/// characters are read and the repeated 2-nibble length echo must match.
fn next_lib_name(a: &[u8], w: Cursor) -> (r: Result<(Option<String>, Cursor), Error>)
    requires
        w.wf(a@),
        nibbles_wf(a@),
    ensures
        match r {
            Ok(v) => {
                &&& lib_name_at(a@, w.pos as int, w.end as int) == Ok::<
                    (Option<Seq<char>>, int),
                    Error,
                >(
                    (
                        match v.0 {
                            Option::None => None,
                            Option::Some(s) => Some(s@),
                        },
                        v.1.pos as int,
                    ),
                )
                &&& v.1.end == w.end
                &&& v.1.wf(a@)
                &&& v.1.pos >= w.pos
            },
            Err(e) => lib_name_at(a@, w.pos as int, w.end as int) == Err::<
                (Option<Seq<char>>, int),
                Error,
            >(e),
        },
{
    if w.end - w.pos < 2 {
        return Err(Error::OutOfData);
    }
    let ls = w.pos;
    let mut t0 = w;
    let l64 = match next_int(a, &mut t0, 2) {
        Ok(v) => v,
        Err(e) => {
            return Err(e);
        },
    };
    if l64 == 0 {
        return Ok((None, t0));
    }
    let mut tp = w;
    let s = match pascal_string(a, &mut tp) {
        Ok(s) => s,
        Err(e) => {
            return Err(e);
        },
    };
    let lval: usize = (tp.pos - ls - 2) / 2;
    let echo64 = match next_int(a, &mut tp, 2) {
        Ok(v) => v,
        Err(e) => {
            return Err(e);
        },
    };
    proof {
        reveal_with_fuel(pow16, 3);
    }
    if echo64 as usize != lval {
        return Err(Error::Mismatch);
    }
    Ok((Some(s), tp))
}

/// The resolved target of an optional offset view.
pub open spec fn opt_pos(o: Option<Cursor>) -> Option<int> {
    match o {
        Option::None => None,
        Option::Some(c) => Some(c.pos as int),
    }
}

/// The table-decoding half of [`next_library`], from the resolved offsets
/// on.
#[verifier::rlimit(100)]
#[verifier::spinoff_prover]
fn next_lib_tables(
    a: &[u8],
    name: Option<String>,
    number: u16,
    hash_t: Option<Cursor>,
    msg_t: Option<Cursor>,
    link_t: Option<Cursor>,
    cfg_t: Option<Cursor>,
    ls: usize,
    le: usize,
) -> (r: Result<Library, Error>)
    requires
        nibbles_wf(a@),
        ls <= le <= a@.len(),
        hash_t matches Some(c) ==> ls < c.pos && c.pos < le && c.end == le,
        msg_t matches Some(c) ==> ls < c.pos && c.pos < le && c.end == le,
        link_t matches Some(c) ==> ls < c.pos && c.pos < le && c.end == le,
        cfg_t matches Some(c) ==> ls < c.pos && c.pos < le && c.end == le,
    ensures
        match r {
            Ok(l) => lib_tables_at(
                a@,
                ls as int,
                le as int,
                match name {
                    Option::None => None,
                    Option::Some(s) => Some(s@),
                },
                number,
                opt_pos(hash_t),
                opt_pos(msg_t),
                opt_pos(link_t),
                opt_pos(cfg_t),
            ) == Ok::<LibraryV, Error>(view_library(l)) && l.name == name && l.number == number,
            Err(e) => lib_tables_at(
                a@,
                ls as int,
                le as int,
                match name {
                    Option::None => None,
                    Option::Some(s) => Some(s@),
                },
                number,
                opt_pos(hash_t),
                opt_pos(msg_t),
                opt_pos(link_t),
                opt_pos(cfg_t),
            ) == Err::<LibraryV, Error>(e),
        },
    decreases le - ls, 4int, 1int,
{
    let pairs: Vec<(String, u16)> = match hash_t {
        None => Vec::new(),
        Some(hc) => match next_hash_table(a, hc) {
            Ok(v) => v,
            Err(e) => {
                return Err(e);
            },
        },
    };
    let links: Vec<usize> = match link_t {
        None => Vec::new(),
        Some(lc) => match next_link_table(a, lc) {
            Ok(v) => v,
            Err(e) => {
                return Err(e);
            },
        },
    };
    let msgs: Vec<String> = match msg_t {
        None => Vec::new(),
        Some(mc) => match next_message_table(a, mc) {
            Ok(v) => v,
            Err(e) => {
                return Err(e);
            },
        },
    };
    let cfg_pos: usize = match &cfg_t {
        None => 0,
        Some(cc) => cc.pos,
    };
    proof {
        assert(view_pairs(Seq::<(String, u16)>::empty()) =~= Seq::<(Seq<char>, u16)>::empty());
        assert(positions(Seq::<usize>::empty()) =~= Seq::<int>::empty());
        assert(Seq::<String>::empty().map(|_i: int, s: String| s@) =~= Seq::<Seq<char>>::empty());
    }
    let (xs, hs, es) = match next_xlibs(a, &links, 0, 0, number, cfg_pos, ls, le) {
        Ok(v) => v,
        Err(e) => {
            return Err(e);
        },
    };
    let config: Option<Box<Obj>> = match cfg_t {
        None => None,
        Some(cc) => {
            let mut c2 = cc;
            let o = match next_obj(a, &mut c2) {
                Ok(o) => o,
                Err(e) => {
                    return Err(e);
                },
            };
            Some(Box::new(o))
        },
    };
    if le - ls < 4 {
        return Err(Error::OutOfData);
    }
    let mut tc = Cursor { pos: le - 4, end: le };
    let crc64 = match next_int(a, &mut tc, 4) {
        Ok(v) => v,
        Err(e) => {
            return Err(e);
        },
    };
    proof {
        reveal_with_fuel(pow16, 5);
    }
    Ok(
        Library {
            name,
            number,
            message_table: msgs,
            hash_table: HashTable { pairs },
            xlib: xs,
            hidden_objects: hs,
            config_object: config,
            extra_objects: es,
            crc: crc64 as u16,
        },
    )
}

} // verus!
