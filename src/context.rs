//! The execution context: the scope through which a state object reaches the
//! byte store.
//!
//! Writes made through a context are visible to later reads through it. A
//! read-only context, such as one that serves a query, refuses every write with
//! [`ErrorCode::StoreFailure`] and is left as it was.
use crate::error::{ErrorCode, Response};
use vstd::prelude::*;
use vstd::slice::slice_to_vec;

verus! {

/// The store that a list of writes leaves behind: a later entry overrides an
/// earlier one with the same key.
pub open spec fn entries_view(s: Seq<(Vec<u8>, Vec<u8>)>) -> Map<Seq<u8>, Seq<u8>>
    decreases s.len(),
{
    if s.len() == 0 {
        Map::empty()
    } else {
        entries_view(s.drop_last()).insert(s.last().0@, s.last().1@)
    }
}

/// Whether two byte strings are equal.
fn same_bytes(a: &[u8], b: &[u8]) -> (r: bool)
    ensures
        r == (a@ == b@),
{
    if a.len() != b.len() {
        return false;
    }
    let mut i: usize = 0;
    while i < a.len()
        invariant
            i <= a@.len() == b@.len(),
            a@.subrange(0, i as int) == b@.subrange(0, i as int),
        decreases a@.len() - i,
    {
        if a[i] != b[i] {
            assert(a@[i as int] != b@[i as int]);
            return false;
        }
        assert(a@.subrange(0, i + 1) =~= a@.subrange(0, i as int).push(a@[i as int]));
        assert(b@.subrange(0, i + 1) =~= b@.subrange(0, i as int).push(b@[i as int]));
        i += 1;
    }
    assert(a@ =~= a@.subrange(0, i as int));
    assert(b@ =~= b@.subrange(0, i as int));
    true
}

/// A copy of the entries without those under `key`, with the same store
/// otherwise.
fn without_key(entries: &Vec<(Vec<u8>, Vec<u8>)>, key: &[u8]) -> (r: Vec<(Vec<u8>, Vec<u8>)>)
    ensures
        entries_view(r@) == entries_view(entries@).remove(key@),
{
    let mut out: Vec<(Vec<u8>, Vec<u8>)> = Vec::new();
    let mut i: usize = 0;
    assert(entries@.subrange(0, 0) =~= Seq::<(Vec<u8>, Vec<u8>)>::empty());
    assert(entries_view(Seq::<(Vec<u8>, Vec<u8>)>::empty()).remove(key@) =~= Map::empty());
    while i < entries.len()
        invariant
            i <= entries@.len(),
            entries_view(out@) == entries_view(entries@.subrange(0, i as int)).remove(key@),
        decreases entries@.len() - i,
    {
        let ghost pre = entries@.subrange(0, i as int);
        let ghost e = entries@[i as int];
        assert(entries@.subrange(0, i + 1).drop_last() =~= pre);
        let ek = entries[i].0.as_slice();
        if !same_bytes(ek, key) {
            let copy = (slice_to_vec(ek), slice_to_vec(entries[i].1.as_slice()));
            let ghost before = out@;
            out.push(copy);
            assert(out@.drop_last() =~= before);
            assert(entries_view(out@) =~= entries_view(pre).insert(e.0@, e.1@).remove(key@));
        } else {
            assert(entries_view(pre).remove(key@) =~= entries_view(pre).insert(e.0@, e.1@).remove(
                key@,
            ));
        }
        i += 1;
    }
    assert(entries@.subrange(0, i as int) =~= entries@);
    out
}

/// One transaction's access to the byte store.
pub struct Context {
    entries: Vec<(Vec<u8>, Vec<u8>)>,
    writable: bool,
}

impl View for Context {
    type V = Map<Seq<u8>, Seq<u8>>;

    /// The store as this context sees it: the bytes held under each key.
    closed spec fn view(&self) -> Map<Seq<u8>, Seq<u8>> {
        entries_view(self.entries@)
    }
}

impl Context {
    /// Whether this context accepts writes.
    pub closed spec fn writable(&self) -> bool {
        self.writable
    }

    /// A writable context over an empty store.
    pub fn new() -> (r: Context)
        ensures
            r@ == Map::<Seq<u8>, Seq<u8>>::empty(),
            r.writable(),
    {
        Context { entries: Vec::new(), writable: true }
    }

    /// The same store, seen through a context that refuses writes.
    pub fn into_read_only(self) -> (r: Context)
        ensures
            r@ == self@,
            !r.writable(),
    {
        Context { entries: self.entries, writable: false }
    }

    /// Whether this context accepts writes.
    pub fn is_writable(&self) -> (r: bool)
        ensures
            r == self.writable(),
    {
        self.writable
    }

    /// The bytes stored under `key`, if any.
    pub fn read(&self, key: &[u8]) -> (r: Option<Vec<u8>>)
        ensures
            match r {
                Some(v) => self@.get(key@) == Some(v@),
                None => self@.get(key@) == None::<Seq<u8>>,
            },
    {
        let mut found: Option<usize> = None;
        let mut i: usize = 0;
        while i < self.entries.len()
            invariant
                i <= self.entries@.len(),
                match found {
                    Some(j) => j < i && entries_view(self.entries@.subrange(0, i as int)).get(key@)
                        == Some(self.entries@[j as int].1@),
                    None => !entries_view(self.entries@.subrange(0, i as int)).contains_key(key@),
                },
            decreases self.entries@.len() - i,
        {
            assert(self.entries@.subrange(0, i + 1).drop_last() =~= self.entries@.subrange(
                0,
                i as int,
            ));
            if same_bytes(self.entries[i].0.as_slice(), key) {
                found = Some(i);
            }
            i += 1;
        }
        assert(self.entries@.subrange(0, i as int) =~= self.entries@);
        match found {
            Some(j) => Some(slice_to_vec(self.entries[j].1.as_slice())),
            None => None,
        }
    }

    /// Stores `value` under `key`, replacing what was there.
    pub fn write(&mut self, key: &[u8], value: &[u8]) -> (r: Response<()>)
        ensures
            final(self).writable() == old(self).writable(),
            if old(self).writable() {
                r == Ok::<(), ErrorCode>(()) && final(self)@ == old(self)@.insert(key@, value@)
            } else {
                r == Err::<(), ErrorCode>(ErrorCode::StoreFailure) && *final(self) == *old(self)
            },
    {
        if !self.writable {
            return Err(ErrorCode::StoreFailure);
        }
        let mut kept = without_key(&self.entries, key);
        let ghost before = kept@;
        kept.push((slice_to_vec(key), slice_to_vec(value)));
        assert(kept@.drop_last() =~= before);
        assert(entries_view(kept@) =~= self@.insert(key@, value@));
        self.entries = kept;
        Ok(())
    }

    /// Removes whatever is stored under `key`.
    pub fn delete(&mut self, key: &[u8]) -> (r: Response<()>)
        ensures
            final(self).writable() == old(self).writable(),
            if old(self).writable() {
                r == Ok::<(), ErrorCode>(()) && final(self)@ == old(self)@.remove(key@)
            } else {
                r == Err::<(), ErrorCode>(ErrorCode::StoreFailure) && *final(self) == *old(self)
            },
    {
        if !self.writable {
            return Err(ErrorCode::StoreFailure);
        }
        self.entries = without_key(&self.entries, key);
        Ok(())
    }
}

} // verus!
