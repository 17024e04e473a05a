//! The directory decoder: a backward-bounded, forward-iterated list of
//! named entries.
//!
//! A directory header carries an offset to the *last* entry; the absolute
//! bound computed from it up front decides termination.  Entries are read
//! forward and iteration stops exactly when the cursor reaches the bound;
//! entries after the first carry a trailing back-link field that is
//! skipped, never followed.

use vstd::prelude::*;

use crate::nibbles::{
    nib_at, nibbles_wf, next_int, pascal_at, pascal_len, pascal_string, pow16, Cursor,
};
use crate::{next_obj, obj_at, view_obj, Error, Obj, ObjV};

verus! {

broadcast use vstd::std_specs::vec::axiom_vec_decreases_to_view, vstd::seq::axiom_seq_index_decreases;

/// One named directory entry.
#[derive(Debug)]
pub struct DirEntity {
    pub name: String,
    pub obj: Obj,
}

/// An ordered list of named entries.
#[derive(Debug)]
pub struct Dir {
    pub entities: Vec<DirEntity>,
}

/// The mathematical model of a [`DirEntity`].
pub struct DirEntV {
    pub name: Seq<char>,
    pub obj: ObjV,
}

/// The mathematical model of a [`Dir`].
pub struct DirV {
    pub entities: Seq<DirEntV>,
}

/// The model of one entry.
pub open spec fn view_dir_ent(e: DirEntity) -> DirEntV
    decreases e,
{
    DirEntV { name: e.name@, obj: view_obj(e.obj) }
}

/// The models of a sequence of entries.
pub open spec fn view_dir_ents(s: Seq<DirEntity>) -> Seq<DirEntV>
    decreases s,
{
    Seq::new(
        s.len(),
        |i: int|
            if 0 <= i < s.len() {
                view_dir_ent(s[i])
            } else {
                DirEntV { name: Seq::empty(), obj: ObjV::Semi }
            },
    )
}

/// The model of a directory.
pub open spec fn view_dir(d: Dir) -> DirV
    decreases d,
{
    DirV { entities: view_dir_ents(d.entities@) }
}

impl View for DirEntity {
    type V = DirEntV;

    open spec fn view(&self) -> DirEntV {
        view_dir_ent(*self)
    }
}

impl View for Dir {
    type V = DirV;

    open spec fn view(&self) -> DirV {
        view_dir(*self)
    }
}

/// Specification parser for the entry list: one entry is a length-prefixed
/// name, a 2-nibble echo of the name's character count that must match, and
/// one object.  After an entry, iteration stops exactly when the cursor has
/// reached `bound`; otherwise a 5-nibble back-link is skipped and the next
/// entry follows.
pub open spec fn dir_ents_at(a: Seq<u8>, pos: int, bound: int, end: int) -> Result<
    (Seq<DirEntV>, int),
    Error,
>
    decreases end - pos, 0int, 0int,
{
    match pascal_at(a, pos, end) {
        Err(e) => Err(e),
        Ok((name, p1)) => {
            if end - p1 < 2 {
                Err(Error::OutOfData)
            } else if nib_at(a, p1, 2) != pascal_len(a, pos) {
                Err(Error::Mismatch)
            } else if p1 + 2 <= pos || p1 + 2 > end {
                Err(Error::OutOfData)
            } else {
                match obj_at(a, p1 + 2, end) {
                    Err(e) => Err(e),
                    Ok((o, p2)) => {
                        if p2 >= bound {
                            Ok((seq![DirEntV { name, obj: o }], p2))
                        } else if p2 + 5 <= pos || p2 > end {
                            Err(Error::OutOfData)
                        } else if end - p2 < 5 {
                            Err(Error::OutOfData)
                        } else {
                            match dir_ents_at(a, p2 + 5, bound, end) {
                                Err(e) => Err(e),
                                Ok((rest, p3)) => Ok((seq![DirEntV { name, obj: o }] + rest, p3)),
                            }
                        }
                    },
                }
            }
        },
    }
}

/// Specification parser for a directory body at `pos` (after its tag): a
/// 3-nibble attached-library count, a 5-nibble offset to the last entry
/// (from which the absolute bound is computed), a fixed 5-nibble padding
/// field, then the entry list.
pub open spec fn dir_full_at(a: Seq<u8>, pos: int, end: int) -> Result<(DirV, int), Error>
    decreases end - pos, 0int, 1int,
{
    if end - pos < 13 {
        Err(Error::OutOfData)
    } else {
        let off = nib_at(a, pos + 3, 5);
        if off < 10 {
            Err(Error::OutOfData)
        } else if pos + 13 + off - 10 > end {
            Err(Error::OutOfData)
        } else {
            match dir_ents_at(a, pos + 13, pos + 13 + off - 10, end) {
                Err(e) => Err(e),
                Ok((es, p)) => Ok((DirV { entities: es }, p)),
            }
        }
    }
}

/// Directory decode terminates exactly when the cursor reaches the
/// backward bound read up front: a successful entry-list parse never stops
/// before the bound, always ends at or past it, and holds at least one
/// entry.
pub proof fn lemma_dir_parse_reaches_bound(a: Seq<u8>, pos: int, bound: int, end: int)
    ensures
        dir_ents_at(a, pos, bound, end) matches Ok(r) ==> r.1 >= bound && r.0.len() >= 1,
    decreases end - pos,
{
    match pascal_at(a, pos, end) {
        Err(_) => {},
        Ok((_name, p1)) => {
            if end - p1 >= 2 && nib_at(a, p1, 2) == pascal_len(a, pos) && p1 + 2 > pos && p1 + 2
                <= end {
                match obj_at(a, p1 + 2, end) {
                    Err(_) => {},
                    Ok((_o, p2)) => {
                        if p2 < bound && p2 + 5 > pos && p2 <= end && end - p2 >= 5 {
                            lemma_dir_parse_reaches_bound(a, p2 + 5, bound, end);
                        }
                    },
                }
            }
        },
    }
}

/// Decode the entry list of a directory.  On success the returned position
/// has reached the bound: the entry count equals the number of physically
/// present name/object pairs up to it, never more.
pub(crate) fn next_dir_ents(a: &[u8], c: &mut Cursor, bound: usize) -> (r: Result<
    Vec<DirEntity>,
    Error,
>)
    requires
        old(c).wf(a@),
        nibbles_wf(a@),
    ensures
        final(c).end == old(c).end,
        final(c).wf(a@),
        match r {
            Ok(es) => dir_ents_at(a@, old(c).pos as int, bound as int, old(c).end as int) == Ok::<
                (Seq<DirEntV>, int),
                Error,
            >((view_dir_ents(es@), final(c).pos as int)) && final(c).pos >= old(c).pos,
            Err(e) => dir_ents_at(a@, old(c).pos as int, bound as int, old(c).end as int) == Err::<
                (Seq<DirEntV>, int),
                Error,
            >(e) && final(c).pos == old(c).pos,
        },
    decreases c.end - c.pos, 0int, 0int,
{
    let mut t = *c;
    let name = match pascal_string(a, &mut t) {
        Ok(s) => s,
        Err(e) => {
            return Err(e);
        },
    };
    let lval: usize = (t.pos - c.pos - 2) / 2;
    let echo64 = match next_int(a, &mut t, 2) {
        Ok(v) => v,
        Err(e) => {
            return Err(e);
        },
    };
    proof {
        reveal_with_fuel(pow16, 3);
        assert(echo64 < 256);
    }
    if echo64 as usize != lval {
        return Err(Error::Mismatch);
    }
    let o = match next_obj(a, &mut t) {
        Ok(o) => o,
        Err(e) => {
            return Err(e);
        },
    };
    let ent = DirEntity { name, obj: o };
    if t.pos >= bound {
        c.pos = t.pos;
        let mut es: Vec<DirEntity> = Vec::new();
        es.push(ent);
        proof {
            assert(view_dir_ents(es@) =~= seq![view_dir_ent(es@[0])]);
        }
        return Ok(es);
    }
    let _back = match next_int(a, &mut t, 5) {
        Ok(v) => v,
        Err(e) => {
            return Err(e);
        },
    };
    let mut rest = match next_dir_ents(a, &mut t, bound) {
        Ok(v) => v,
        Err(e) => {
            return Err(e);
        },
    };
    let ghost rest0 = rest@;
    rest.insert(0, ent);
    c.pos = t.pos;
    proof {
        assert(view_dir_ents(rest@) =~= seq![view_dir_ent(rest@[0])] + view_dir_ents(rest0));
    }
    Ok(rest)
}

/// Decode a directory body (the tag has been consumed).  On success the
/// cursor stops exactly where the entry list reached the backward bound.
pub(crate) fn next_dir(a: &[u8], c: &mut Cursor) -> (r: Result<Dir, Error>)
    requires
        old(c).wf(a@),
        nibbles_wf(a@),
    ensures
        final(c).end == old(c).end,
        final(c).wf(a@),
        match r {
            Ok(d) => dir_full_at(a@, old(c).pos as int, old(c).end as int) == Ok::<
                (DirV, int),
                Error,
            >((view_dir(d), final(c).pos as int)) && final(c).pos >= old(c).pos,
            Err(e) => dir_full_at(a@, old(c).pos as int, old(c).end as int) == Err::<
                (DirV, int),
                Error,
            >(e) && final(c).pos == old(c).pos,
        },
    decreases c.end - c.pos, 0int, 1int,
{
    if c.end - c.pos < 13 {
        return Err(Error::OutOfData);
    }
    let mut t = *c;
    let _attached = match next_int(a, &mut t, 3) {
        Ok(v) => v,
        Err(e) => {
            return Err(e);
        },
    };
    let off64 = match next_int(a, &mut t, 5) {
        Ok(v) => v,
        Err(e) => {
            return Err(e);
        },
    };
    let _zeros = match next_int(a, &mut t, 5) {
        Ok(v) => v,
        Err(e) => {
            return Err(e);
        },
    };
    proof {
        reveal_with_fuel(pow16, 6);
        assert(off64 < 0x100000);
    }
    let off: usize = off64 as usize;
    if off < 10 {
        return Err(Error::OutOfData);
    }
    if off - 10 > c.end - t.pos {
        return Err(Error::OutOfData);
    }
    let bound: usize = t.pos + (off - 10);
    let es = match next_dir_ents(a, &mut t, bound) {
        Ok(v) => v,
        Err(e) => {
            return Err(e);
        },
    };
    c.pos = t.pos;
    Ok(Dir { entities: es })
}

} // verus!
