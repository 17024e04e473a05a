//! The external symbol table: a name/address mapping recovered from the
//! one library-data blob embedded among a library's extra objects.
//!
//! Within that blob two mandatory offsets are resolved in order (an address
//! table, unused here, and a name table); the name table starts with a
//! fixed 5-nibble field, then entries (a length-prefixed name that must not
//! contain a null byte, and a 5-nibble absolute address) are read until one
//! fails to decode, at which point the remaining bytes are trailing
//! padding.  Duplicate names or addresses overwrite silently: the last
//! write wins in both lookup directions.

use vstd::prelude::*;

use crate::consts::DOEXT3;
use crate::library::{view_library, Library, LibraryV};
use crate::nibbles::{
    nib_at, nibbles_to_bytes, nibbles_wf, next_int, offset_at, pascal_at, pascal_bytes,
    pascal_string, pow16, Cursor,
};
use crate::{file_obj, parse_hp4x, Error, Obj, ObjV};

verus! {

/// The recovered symbol table: (name, address) entries in decode order.
/// Both lookup directions are served from this one list; on duplicates the
/// later entry wins.
#[derive(Debug)]
pub struct Extable {
    pub entries: Vec<(String, u32)>,
}

/// The model of the entry list.
pub open spec fn view_entries(s: Seq<(String, u32)>) -> Seq<(Seq<char>, u32)> {
    s.map(|_i: int, p: (String, u32)| (p.0@, p.1))
}

impl View for Extable {
    type V = Seq<(Seq<char>, u32)>;

    open spec fn view(&self) -> Seq<(Seq<char>, u32)> {
        view_entries(self.entries@)
    }
}

/// The name registered for `addr`, the last registration winning.
pub open spec fn addr_lookup(es: Seq<(Seq<char>, u32)>, addr: u32) -> Option<Seq<char>>
    decreases es.len(),
{
    if es.len() == 0 {
        None
    } else if es.last().1 == addr {
        Some(es.last().0)
    } else {
        addr_lookup(es.drop_last(), addr)
    }
}

/// The address registered for `name`, the last registration winning.
pub open spec fn name_lookup(es: Seq<(Seq<char>, u32)>, name: Seq<char>) -> Option<u32>
    decreases es.len(),
{
    if es.len() == 0 {
        None
    } else if es.last().0 == name {
        Some(es.last().1)
    } else {
        name_lookup(es.drop_last(), name)
    }
}

impl Default for Extable {
    /// The symbol table used when none was supplied: empty, so every
    /// external reference falls back to its tagged hexadecimal form.
    fn default() -> (r: Extable)
        ensures
            r@ == Seq::<(Seq<char>, u32)>::empty(),
    {
        Extable::new()
    }
}

impl Extable {
    /// An empty table.
    pub fn new() -> (r: Extable)
        ensures
            r@ == Seq::<(Seq<char>, u32)>::empty(),
    {
        let r = Extable { entries: Vec::new() };
        proof {
            assert(r@ =~= Seq::<(Seq<char>, u32)>::empty());
        }
        r
    }

    /// Register one name/address pair; it wins over any earlier entry with
    /// the same name or address.
    pub fn insert(&mut self, name: String, addr: u32)
        ensures
            final(self)@ == old(self)@.push((name@, addr)),
    {
        let ghost before = self.entries@;
        self.entries.push((name, addr));
        proof {
            assert(self@ =~= view_entries(before).push((self.entries@.last().0@, addr)));
        }
    }

    /// The number of entries.
    pub fn len(&self) -> (r: usize)
        ensures
            r == self@.len(),
    {
        self.entries.len()
    }

    /// Look up the name registered for an address.
    pub fn addr_to_name(&self, addr: u32) -> (r: Option<String>)
        ensures
            match r {
                Some(s) => addr_lookup(self@, addr) == Some(s@),
                None => addr_lookup(self@, addr) is None,
            },
    {
        proof {
            assert(self.entries@.take(self.entries@.len() as int) =~= self.entries@);
        }
        lookup_name_rec(&self.entries, self.entries.len(), addr)
    }

    /// Look up the address registered for a name.
    pub fn name_to_addr(&self, name: &String) -> (r: Option<u32>)
        ensures
            match r {
                Some(v) => name_lookup(self@, name@) == Some(v),
                None => name_lookup(self@, name@) is None,
            },
    {
        proof {
            assert(self.entries@.take(self.entries@.len() as int) =~= self.entries@);
        }
        lookup_addr_rec(&self.entries, self.entries.len(), name)
    }
}

/// Search the first `i` entries for `addr`, later entries winning.
fn lookup_name_rec(entries: &Vec<(String, u32)>, i: usize, addr: u32) -> (r: Option<String>)
    requires
        i <= entries@.len(),
    ensures
        match r {
            Some(s) => addr_lookup(view_entries(entries@.take(i as int)), addr) == Some(s@),
            None => addr_lookup(view_entries(entries@.take(i as int)), addr) is None,
        },
    decreases i,
{
    if i == 0 {
        proof {
            assert(view_entries(entries@.take(0)).len() == 0);
        }
        None
    } else {
        proof {
            let es = view_entries(entries@.take(i as int));
            assert(es.last() == (entries@[i - 1].0@, entries@[i - 1].1));
            assert(es.drop_last() =~= view_entries(entries@.take(i - 1)));
        }
        if entries[i - 1].1 == addr {
            Some(entries[i - 1].0.clone())
        } else {
            lookup_name_rec(entries, i - 1, addr)
        }
    }
}

/// Search the first `i` entries for `name`, later entries winning.
fn lookup_addr_rec(entries: &Vec<(String, u32)>, i: usize, name: &String) -> (r: Option<u32>)
    requires
        i <= entries@.len(),
    ensures
        match r {
            Some(v) => name_lookup(view_entries(entries@.take(i as int)), name@) == Some(v),
            None => name_lookup(view_entries(entries@.take(i as int)), name@) is None,
        },
    decreases i,
{
    if i == 0 {
        proof {
            assert(view_entries(entries@.take(0)).len() == 0);
        }
        None
    } else {
        proof {
            let es = view_entries(entries@.take(i as int));
            assert(es.last() == (entries@[i - 1].0@, entries@[i - 1].1));
            assert(es.drop_last() =~= view_entries(entries@.take(i - 1)));
        }
        if entries[i - 1].0.eq(name) {
            Some(entries[i - 1].1)
        } else {
            lookup_addr_rec(entries, i - 1, name)
        }
    }
}

/// Whether the byte sequence contains a null byte.
pub open spec fn has_zero_byte(bs: Seq<u8>) -> bool {
    exists|i: int| 0 <= i < bs.len() && bs[i] == 0
}

/// Specification parser for one symbol entry: a length-prefixed name,
/// rejected if its bytes contain a null, then a 5-nibble absolute address.
pub open spec fn ext_entry_at(a: Seq<u8>, pos: int, end: int) -> Result<
    ((Seq<char>, u32), int),
    Error,
> {
    match pascal_at(a, pos, end) {
        Err(e) => Err(e),
        Ok((name, p1)) => {
            if has_zero_byte(pascal_bytes(a, pos)) {
                Err(Error::Mismatch)
            } else if end - p1 < 5 {
                Err(Error::OutOfData)
            } else {
                Ok(((name, nib_at(a, p1, 5) as u32), p1 + 5))
            }
        },
    }
}

/// Specification parser for the entry run: entries are read until one
/// fails to decode; whatever remains is trailing padding, discarded by
/// design.
pub open spec fn ext_entries_at(a: Seq<u8>, pos: int, end: int) -> Seq<(Seq<char>, u32)>
    decreases end - pos,
{
    if pos >= end || pos < 0 {
        Seq::empty()
    } else {
        match ext_entry_at(a, pos, end) {
            Err(_) => Seq::empty(),
            Ok((e, p2)) => {
                if p2 <= pos || p2 > end {
                    Seq::empty()
                } else {
                    seq![e] + ext_entries_at(a, p2, end)
                }
            },
        }
    }
}

/// Specification parser for a library-data blob: two mandatory offsets in
/// order (an address table, unused further, and the name table), then
/// within the name table a fixed 5-nibble field is skipped and the entry
/// run follows.
pub open spec fn ext3_at(a: Seq<u8>, pos: int, end: int) -> Result<Seq<(Seq<char>, u32)>, Error> {
    match offset_at(a, pos, end) {
        Err(e) => Err(e),
        Ok(None) => Err(Error::Mismatch),
        Ok(Some(_addr_table)) => match offset_at(a, pos + 5, end) {
            Err(e) => Err(e),
            Ok(None) => Err(Error::Mismatch),
            Ok(Some(nt)) => {
                if end - nt < 5 {
                    Err(Error::OutOfData)
                } else {
                    Ok(ext_entries_at(a, nt + 5, end))
                }
            },
        },
    }
}

/// The symbol table a library denotes: its first extra object must be the
/// library-data blob; a library without one has no symbol table, which is a
/// caller-visible condition, never a silent empty result.
pub open spec fn extable_of(l: LibraryV) -> Result<Seq<(Seq<char>, u32)>, Error> {
    if l.extra_objects.len() == 0 {
        Err(Error::NoExtable)
    } else {
        match l.extra_objects[0] {
            ObjV::ExtObj(code, blob, _id) => {
                if code != DOEXT3 {
                    Err(Error::NoExtable)
                } else if !nibbles_wf(blob) {
                    Err(Error::Mismatch)
                } else {
                    ext3_at(blob, 0, blob.len() as int)
                }
            },
            _ => Err(Error::NoExtable),
        }
    }
}

/// The symbol table a whole file denotes: the file must decode to a
/// library that embeds the library-data blob.
pub open spec fn extable_of_file(bs: Seq<u8>) -> Result<Seq<(Seq<char>, u32)>, Error> {
    match file_obj(bs) {
        Err(e) => Err(e),
        Ok(o) => match o {
            ObjV::Library(l) => extable_of(l),
            _ => Err(Error::NoExtable),
        },
    }
}

/// Whether every stored nibble is a 4-bit value.
fn nibbles_ok(b: &[u8]) -> (r: bool)
    ensures
        r == nibbles_wf(b@),
{
    let mut i: usize = 0;
    while i < b.len()
        invariant
            i <= b@.len(),
            forall|j: int| 0 <= j < i ==> b@[j] < 16,
        decreases b@.len() - i,
    {
        if b[i] >= 16 {
            return false;
        }
        i = i + 1;
    }
    true
}

/// Whether the byte buffer contains a null byte.
fn contains_zero(b: &Vec<u8>) -> (r: bool)
    ensures
        r == has_zero_byte(b@),
{
    let mut i: usize = 0;
    while i < b.len()
        invariant
            i <= b@.len(),
            forall|j: int| 0 <= j < i ==> b@[j] != 0,
        decreases b@.len() - i,
    {
        if b[i] == 0 {
            return true;
        }
        i = i + 1;
    }
    false
}

/// Decode one symbol entry.
fn next_ext_entry(a: &[u8], c: &mut Cursor) -> (r: Result<(String, u32), Error>)
    requires
        old(c).wf(a@),
        nibbles_wf(a@),
    ensures
        final(c).end == old(c).end,
        final(c).wf(a@),
        match r {
            Ok(e) => ext_entry_at(a@, old(c).pos as int, old(c).end as int) == Ok::<
                ((Seq<char>, u32), int),
                Error,
            >(((e.0@, e.1), final(c).pos as int)) && final(c).pos > old(c).pos,
            Err(e) => ext_entry_at(a@, old(c).pos as int, old(c).end as int) == Err::<
                ((Seq<char>, u32), int),
                Error,
            >(e) && final(c).pos == old(c).pos,
        },
{
    let mut t = *c;
    let name = match pascal_string(a, &mut t) {
        Ok(s) => s,
        Err(e) => {
            return Err(e);
        },
    };
    let bytes = nibbles_to_bytes(a, c.pos + 2, t.pos);
    if contains_zero(&bytes) {
        return Err(Error::Mismatch);
    }
    let addr64 = match next_int(a, &mut t, 5) {
        Ok(v) => v,
        Err(e) => {
            return Err(e);
        },
    };
    proof {
        reveal_with_fuel(pow16, 6);
        assert(addr64 < 0x100000);
    }
    c.pos = t.pos;
    Ok((name, addr64 as u32))
}

/// Decode the entry run, stopping silently at the first entry that fails.
fn next_ext_entries(a: &[u8], pos: usize, end: usize) -> (r: Vec<(String, u32)>)
    requires
        nibbles_wf(a@),
        end <= a@.len(),
    ensures
        view_entries(r@) == ext_entries_at(a@, pos as int, end as int),
    decreases end - pos,
{
    if pos >= end {
        let empty: Vec<(String, u32)> = Vec::new();
        proof {
            assert(view_entries(empty@) =~= Seq::<(Seq<char>, u32)>::empty());
        }
        return empty;
    }
    let mut cur = Cursor { pos, end };
    let e = match next_ext_entry(a, &mut cur) {
        Ok(e) => e,
        Err(_) => {
            let empty: Vec<(String, u32)> = Vec::new();
            proof {
                assert(view_entries(empty@) =~= Seq::<(Seq<char>, u32)>::empty());
            }
            return empty;
        },
    };
    let mut rest = next_ext_entries(a, cur.pos, end);
    let ghost rest0 = rest@;
    rest.insert(0, e);
    proof {
        assert(view_entries(rest@) =~= seq![(rest@[0].0@, rest@[0].1)] + view_entries(rest0));
    }
    rest
}

/// Decode a library-data blob into the symbol entry list.
fn parse_ext3(a: &[u8]) -> (r: Result<Vec<(String, u32)>, Error>)
    requires
        nibbles_wf(a@),
    ensures
        match r {
            Ok(es) => ext3_at(a@, 0, a@.len() as int) == Ok::<Seq<(Seq<char>, u32)>, Error>(
                view_entries(es@),
            ),
            Err(e) => ext3_at(a@, 0, a@.len() as int) == Err::<Seq<(Seq<char>, u32)>, Error>(e),
        },
{
    let mut c = Cursor::over(a);
    let addr_table = match crate::nibbles::next_offset(a, &mut c) {
        Ok(o) => o,
        Err(e) => {
            return Err(e);
        },
    };
    let _ = match addr_table {
        None => {
            return Err(Error::Mismatch);
        },
        Some(t) => t,
    };
    let name_table = match crate::nibbles::next_offset(a, &mut c) {
        Ok(o) => o,
        Err(e) => {
            return Err(e);
        },
    };
    let nt = match name_table {
        None => {
            return Err(Error::Mismatch);
        },
        Some(t) => t,
    };
    if nt.end - nt.pos < 5 {
        return Err(Error::OutOfData);
    }
    Ok(next_ext_entries(a, nt.pos + 5, nt.end))
}

impl Extable {
    /// Build the symbol table from a decoded library.  The library's first
    /// extra object must be the library-data blob; otherwise the library
    /// has no symbol table.
    pub fn from_library(lib: Library) -> (r: Result<Extable, Error>)
        ensures
            match r {
                Ok(t) => extable_of(view_library(lib)) == Ok::<Seq<(Seq<char>, u32)>, Error>(t@),
                Err(e) => extable_of(view_library(lib)) == Err::<Seq<(Seq<char>, u32)>, Error>(e),
            },
    {
        if lib.extra_objects.len() == 0 {
            return Err(Error::NoExtable);
        }
        proof {
            assert(view_library(lib).extra_objects[0] == crate::view_obj(lib.extra_objects@[0]));
        }
        match &lib.extra_objects[0] {
            Obj::ExtObj(code, blob, _id) => {
                if *code != DOEXT3 {
                    return Err(Error::NoExtable);
                }
                if !nibbles_ok(blob.0.as_slice()) {
                    return Err(Error::Mismatch);
                }
                match parse_ext3(blob.0.as_slice()) {
                    Ok(es) => Ok(Extable { entries: es }),
                    Err(e) => Err(e),
                }
            },
            _ => Err(Error::NoExtable),
        }
    }
}

/// Build the symbol table from a whole file image: it must decode to a
/// library whose first extra object is the library-data blob.
pub fn get_extable(bytes: &[u8]) -> (r: Result<Extable, Error>)
    ensures
        match r {
            Ok(t) => extable_of_file(bytes@) == Ok::<Seq<(Seq<char>, u32)>, Error>(t@),
            Err(e) => extable_of_file(bytes@) == Err::<Seq<(Seq<char>, u32)>, Error>(e),
        },
{
    let obj = match parse_hp4x(bytes) {
        Ok(o) => o,
        Err(e) => {
            return Err(e);
        },
    };
    match obj {
        Obj::Library(l) => Extable::from_library(l),
        o => {
            proof {
                assert(!(crate::view_obj(o) is Library));
            }
            Err(Error::NoExtable)
        },
    }
}

} // verus!
