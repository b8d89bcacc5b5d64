//! The tracked-address table: the last value seen at each pinned address.
use vstd::prelude::*;
use crate::data_types::{ByteOrder, DataType};
use crate::error::AppError;
use crate::value::WrappedValue;

verus! {

/// The value last seen at `address` in process `pid`.
#[derive(Debug, PartialEq, Eq, Structural, Clone, Copy)]
pub struct TrackedEntry {
    pub pid: i32,
    pub address: u64,
    pub value: WrappedValue,
}

pub open spec fn has_key(s: Seq<TrackedEntry>, i: int, pid: i32, address: u64) -> bool {
    0 <= i < s.len() && s[i].pid == pid && s[i].address == address
}

/// Whether some entry is keyed by `(pid, address)`.
pub open spec fn tracks(s: Seq<TrackedEntry>, pid: i32, address: u64) -> bool {
    exists|i: int| #[trigger] has_key(s, i, pid, address)
}

/// No two entries share a key.
pub open spec fn keys_unique(s: Seq<TrackedEntry>) -> bool {
    forall|i: int, j: int|
        0 <= i < s.len() && 0 <= j < s.len() && i != j ==> !(#[trigger] s[i].pid == #[trigger] s[j].pid && s[i].address == s[j].address)
}

proof fn lemma_remove_keeps_unique(s: Seq<TrackedEntry>, i: int)
    requires
        keys_unique(s),
        0 <= i < s.len(),
    ensures
        keys_unique(s.remove(i)),
{
    let r = s.remove(i);
    assert forall|a: int, b: int| 0 <= a < r.len() && 0 <= b < r.len() && a != b implies !(#[trigger] r[a].pid == #[trigger] r[b].pid
        && r[a].address == r[b].address) by {
        let a2 = if a < i { a } else { a + 1 };
        let b2 = if b < i { b } else { b + 1 };
        assert(r[a] == s[a2] && r[b] == s[b2]);
        assert(!(s[a2].pid == s[b2].pid && s[a2].address == s[b2].address));
    }
}

/// Pinned addresses with their last observed values, one entry per `(pid, address)`.
pub struct TrackedSet {
    entries: Vec<TrackedEntry>,
}

impl TrackedSet {
    pub closed spec fn view(&self) -> Seq<TrackedEntry> {
        self.entries@
    }

    pub open spec fn wf(&self) -> bool {
        keys_unique(self.view())
    }

    pub fn new() -> (r: TrackedSet)
        ensures
            r.wf(),
            r.view() == Seq::<TrackedEntry>::empty(),
    {
        TrackedSet { entries: Vec::new() }
    }

    pub fn entries(&self) -> (r: &Vec<TrackedEntry>)
        ensures
            r@ == self.view(),
    {
        &self.entries
    }

    /// Where the entry for `(pid, address)` is.
    pub fn position(&self, pid: i32, address: u64) -> (r: Option<usize>)
        ensures
            r matches Some(i) ==> has_key(self.view(), i as int, pid, address),
            r is None ==> !tracks(self.view(), pid, address),
    {
        let mut i: usize = 0;
        while i < self.entries.len()
            invariant
                i <= self.entries.len(),
                forall|k: int| 0 <= k < i ==> !#[trigger] has_key(self.entries@, k, pid, address),
            decreases self.entries.len() - i,
        {
            if self.entries[i].pid == pid && self.entries[i].address == address {
                return Some(i);
            }
            i = i + 1;
        }
        None
    }

    pub fn contains(&self, pid: i32, address: u64) -> (r: bool)
        ensures
            r == tracks(self.view(), pid, address),
    {
        self.position(pid, address).is_some()
    }

    /// Stops tracking `(pid, address)` if it is tracked; otherwise starts tracking it
    /// with `current`, the value just read there (`None` when the read failed, which
    /// leaves the table unchanged). Returns whether an entry was added.
    pub fn toggle(&mut self, pid: i32, address: u64, current: Option<WrappedValue>) -> (added: bool)
        requires
            old(self).wf(),
        ensures
            final(self).wf(),
            tracks(old(self).view(), pid, address) ==> !added && exists|i: int| #[trigger] has_key(old(self).view(), i, pid, address)
                && final(self).view() == old(self).view().remove(i),
            !tracks(old(self).view(), pid, address) && current is Some ==> added && final(self).view() == old(self).view().push(
                TrackedEntry { pid, address, value: current->0 },
            ),
            !tracks(old(self).view(), pid, address) && current is None ==> !added && final(self).view() == old(self).view(),
    {
        match self.position(pid, address) {
            Some(i) => {
                proof {
                    lemma_remove_keeps_unique(self.entries@, i as int);
                }
                self.entries.remove(i);
                false
            },
            None => match current {
                Some(value) => {
                    let ghost before = self.entries@;
                    self.entries.push(TrackedEntry { pid, address, value });
                    assert forall|a: int, b: int| 0 <= a < self.entries@.len() && 0 <= b < self.entries@.len() && a != b implies !(
                        #[trigger] self.entries@[a].pid == #[trigger] self.entries@[b].pid && self.entries@[a].address
                            == self.entries@[b].address) by {
                        if a == before.len() {
                            assert(!has_key(before, b, pid, address));
                        } else if b == before.len() {
                            assert(!has_key(before, a, pid, address));
                        }
                    }
                    true
                },
                None => false,
            },
        }
    }

    /// Re-reads one entry: `read` holds the bytes read at its address in `order`,
    /// or `None` when the read failed. The value is reinterpreted with the entry's
    /// own type; a failed or short read drops the entry.
    pub fn refresh_entry(&mut self, pid: i32, address: u64, read: Option<&[u8]>, order: ByteOrder)
        requires
            old(self).wf(),
        ensures
            final(self).wf(),
            !tracks(old(self).view(), pid, address) ==> final(self).view() == old(self).view(),
            forall|i: int| #[trigger] has_key(old(self).view(), i, pid, address) ==> {
                let t = old(self).view()[i].value.kind();
                if read is Some && read->0@.len() >= t.width() {
                    final(self).view().len() == old(self).view().len()
                    && (forall|j: int| 0 <= j < old(self).view().len() && j != i ==> #[trigger] final(self).view()[j] == old(self).view()[j])
                    && final(self).view()[i].pid == pid && final(self).view()[i].address == address
                    && final(self).view()[i].value.kind() == t
                    && final(self).view()[i].value.stored_in(read->0@, order)
                } else {
                    final(self).view() == old(self).view().remove(i)
                }
            },
    {
        match self.position(pid, address) {
            None => {},
            Some(i) => {
                let t = self.entries[i].value.data_type();
                let refreshed = match read {
                    Some(data) => match t.cast_in(data, order) {
                        Ok(v) => Some(v),
                        Err(_) => None,
                    },
                    None => None,
                };
                match refreshed {
                    Some(value) => {
                        self.entries.set(i, TrackedEntry { pid, address, value });
                    },
                    None => {
                        self.entries.remove(i);
                    },
                }
            },
        }
    }

    /// The type of the value tracked at `(pid, address)`.
    pub fn data_type_of(&self, pid: i32, address: u64) -> (r: Option<DataType>)
        requires
            self.wf(),
        ensures
            r is None <==> !tracks(self.view(), pid, address),
            forall|i: int| #[trigger] has_key(self.view(), i, pid, address) ==> r == Some(self.view()[i].value.kind()),
    {
        match self.position(pid, address) {
            Some(i) => Some(self.entries[i].value.data_type()),
            None => None,
        }
    }

    /// Replaces the value at `(pid, address)` by one the user entered. The value must
    /// have the entry's type: a type never changes while an address is tracked.
    pub fn edit(&mut self, pid: i32, address: u64, value: WrappedValue) -> (r: Result<(), AppError>)
        requires
            old(self).wf(),
        ensures
            final(self).wf(),
            !tracks(old(self).view(), pid, address) ==> r is Err && final(self).view() == old(self).view(),
            forall|i: int| #[trigger] has_key(old(self).view(), i, pid, address) ==> if old(self).view()[i].value.kind() == value.kind() {
                r is Ok && final(self).view() == old(self).view().update(i, TrackedEntry { pid, address, value })
            } else {
                r is Err && final(self).view() == old(self).view()
            },
    {
        match self.position(pid, address) {
            None => Err(AppError::DataTypeParseError("address is not tracked".to_owned())),
            Some(i) => {
                if self.entries[i].value.data_type() == value.data_type() {
                    self.entries.set(i, TrackedEntry { pid, address, value });
                    Ok(())
                } else {
                    Err(AppError::DataTypeParseError("value has another type than the tracked one".to_owned()))
                }
            },
        }
    }
}

} // verus!
