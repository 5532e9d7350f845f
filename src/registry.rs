//! The table of live contexts by name.

use crate::groups::PendingGroups;
use vstd::prelude::*;

verus! {

struct RegistryEntry<W> {
    name: String,
    serial: u64,
    context: W,
}

/// Context entries keyed by name, at most one per name. Each registration
/// gets a serial number never given before, so that the teardown of a
/// context removes its own entry and never a newer one under the same name.
pub struct Registry<W> {
    entries: Vec<RegistryEntry<W>>,
    next_serial: u64,
    by_name: Ghost<Map<Seq<char>, W>>,
    serial_by_name: Ghost<Map<Seq<char>, u64>>,
}

impl<W> View for Registry<W> {
    type V = Map<Seq<char>, W>;

    closed spec fn view(&self) -> Map<Seq<char>, W> {
        self.by_name@
    }
}

impl<W> Registry<W> {
    /// The serial number of the registration now standing under each name.
    pub closed spec fn serials(&self) -> Map<Seq<char>, u64> {
        self.serial_by_name@
    }

    /// The serial number that the next registration gets.
    pub closed spec fn upcoming_serial(&self) -> u64 {
        self.next_serial
    }

    /// Whether the entry under `name` is the one registered with `serial`.
    pub open spec fn owns_entry(&self, name: Seq<char>, serial: u64) -> bool {
        self.serials().contains_key(name) && self.serials()[name] == serial
    }

    /// Names are distinct, the entries list exactly the named maps, and every
    /// serial in use was given before the upcoming one.
    pub closed spec fn wf(&self) -> bool {
        &&& forall|i: int, j: int|
            0 <= i < j < self.entries@.len() ==> #[trigger] self.entries@[i].name@
                != #[trigger] self.entries@[j].name@
        &&& forall|n: Seq<char>|
            #[trigger] self.by_name@.contains_key(n) <==> exists|i: int|
                0 <= i < self.entries@.len() && #[trigger] self.entries@[i].name@ == n
        &&& forall|n: Seq<char>|
            #[trigger] self.serial_by_name@.contains_key(n) <==> self.by_name@.contains_key(n)
        &&& forall|i: int|
            0 <= i < self.entries@.len() ==> #[trigger] self.by_name@[self.entries@[i].name@]
                == self.entries@[i].context
        &&& forall|i: int|
            0 <= i < self.entries@.len() ==> #[trigger] self.serial_by_name@[self.entries@[i].name@]
                == self.entries@[i].serial
        &&& forall|n: Seq<char>| #[trigger]
            self.serial_by_name@.contains_key(n) ==> self.serial_by_name@[n] < self.next_serial
    }

    pub fn new() -> (r: Self)
        ensures
            r.wf(),
            r@ == Map::<Seq<char>, W>::empty(),
            r.serials() == Map::<Seq<char>, u64>::empty(),
            r.upcoming_serial() == 0,
    {
        Registry {
            entries: Vec::new(),
            next_serial: 0,
            by_name: Ghost(Map::empty()),
            serial_by_name: Ghost(Map::empty()),
        }
    }

    /// The serial number that the next registration gets, while one is left.
    pub fn free_serial(&self) -> (r: Option<u64>)
        ensures
            r == (if self.upcoming_serial() < u64::MAX {
                Some(self.upcoming_serial())
            } else {
                None::<u64>
            }),
    {
        if self.next_serial < u64::MAX {
            Some(self.next_serial)
        } else {
            None
        }
    }

    fn position(&self, key: &String) -> (r: Option<usize>)
        requires
            self.wf(),
        ensures
            match r {
                Some(i) => i < self.entries@.len() && self.entries@[i as int].name@ == key@,
                None => !self@.contains_key(key@),
            },
    {
        let mut i: usize = 0;
        while i < self.entries.len()
            invariant
                self.wf(),
                i <= self.entries@.len(),
                forall|j: int| 0 <= j < i ==> self.entries@[j].name@ != key@,
            decreases self.entries@.len() - i,
        {
            if self.entries[i].name == *key {
                return Some(i);
            }
            i = i + 1;
        }
        None
    }

    /// The entry registered under `name`, if there is one.
    pub fn find(&self, name: &str) -> (r: Option<&W>)
        requires
            self.wf(),
        ensures
            r == (if self@.contains_key(name@) {
                Some(&self@[name@])
            } else {
                None
            }),
    {
        let key = name.to_owned();
        match self.position(&key) {
            Some(i) => Some(&self.entries[i].context),
            None => None,
        }
    }

    fn remove_at(&mut self, i: usize) -> (r: W)
        requires
            old(self).wf(),
            i < old(self).entries@.len(),
        ensures
            final(self).wf(),
            final(self).next_serial == old(self).next_serial,
            final(self)@ == old(self)@.remove(old(self).entries@[i as int].name@),
            final(self).serials() == old(self).serials().remove(old(self).entries@[i as int].name@),
            r == old(self)@[old(self).entries@[i as int].name@],
    {
        let ghost key = self.entries@[i as int].name@;
        let entry = self.entries.remove(i);
        self.by_name = Ghost(self.by_name@.remove(key));
        self.serial_by_name = Ghost(self.serial_by_name@.remove(key));
        assert forall|n: Seq<char>| #[trigger] self.by_name@.contains_key(n) <==> exists|j: int|
            0 <= j < self.entries@.len() && #[trigger] self.entries@[j].name@ == n by {
            if old(self).by_name@.contains_key(n) && n != key {
                let j = choose|j: int|
                    0 <= j < old(self).entries@.len() && #[trigger] old(self).entries@[j].name@ == n;
                if j < i {
                    assert(self.entries@[j].name@ == n);
                } else {
                    assert(self.entries@[j - 1].name@ == n);
                }
            }
            if exists|j: int| 0 <= j < self.entries@.len() && #[trigger] self.entries@[j].name@ == n {
                let j = choose|j: int|
                    0 <= j < self.entries@.len() && #[trigger] self.entries@[j].name@ == n;
                if j < i {
                    assert(old(self).entries@[j].name@ == n);
                } else {
                    assert(old(self).entries@[j + 1].name@ == n);
                }
            }
        }
        assert forall|a: int| 0 <= a < self.entries@.len() implies {
            &&& #[trigger] self.by_name@[self.entries@[a].name@] == self.entries@[a].context
            &&& self.serial_by_name@[self.entries@[a].name@] == self.entries@[a].serial
        } by {
            if a < i {
                assert(old(self).entries@[a] == self.entries@[a]);
            } else {
                assert(old(self).entries@[a + 1] == self.entries@[a]);
            }
        }
        entry.context
    }

    /// Drops the entry under `name` if it is the one registered with `serial`;
    /// an entry registered later under the same name stays.
    pub fn remove_own(&mut self, name: &str, serial: u64) -> (r: Option<W>)
        requires
            old(self).wf(),
        ensures
            final(self).wf(),
            final(self).upcoming_serial() == old(self).upcoming_serial(),
            if old(self).owns_entry(name@, serial) {
                &&& final(self)@ == old(self)@.remove(name@)
                &&& final(self).serials() == old(self).serials().remove(name@)
                &&& r == Some(old(self)@[name@])
            } else {
                &&& final(self)@ == old(self)@
                &&& final(self).serials() == old(self).serials()
                &&& r is None
            },
    {
        let key = name.to_owned();
        match self.position(&key) {
            Some(i) => {
                if self.entries[i].serial == serial {
                    Some(self.remove_at(i))
                } else {
                    None
                }
            },
            None => None,
        }
    }

    /// Registers `context` under `name`, in place of any earlier entry, and
    /// returns the serial number of this registration.
    pub fn register(&mut self, name: &str, context: W) -> (serial: u64)
        requires
            old(self).wf(),
            old(self).upcoming_serial() < u64::MAX,
        ensures
            final(self).wf(),
            serial == old(self).upcoming_serial(),
            final(self).upcoming_serial() == old(self).upcoming_serial() + 1,
            final(self)@ == old(self)@.insert(name@, context),
            final(self).serials() == old(self).serials().insert(name@, serial),
    {
        let key = name.to_owned();
        match self.position(&key) {
            Some(i) => {
                let _ = self.remove_at(i);
            },
            None => {},
        }
        assert(!self.by_name@.contains_key(name@));
        assert(self@ == old(self)@.remove(name@));
        assert(self.serials() == old(self).serials().remove(name@));
        let ghost mid = self.by_name@;
        let ghost mid_serials = self.serial_by_name@;
        let ghost prev = self.entries@;
        let serial = self.next_serial;
        self.entries.push(RegistryEntry { name: key, serial, context });
        self.next_serial = self.next_serial + 1;
        self.by_name = Ghost(mid.insert(name@, context));
        self.serial_by_name = Ghost(mid_serials.insert(name@, serial));
        assert(self.entries@ == prev.push(self.entries@[prev.len() as int]));
        assert forall|n: Seq<char>| #[trigger] self.by_name@.contains_key(n) <==> exists|j: int|
            0 <= j < self.entries@.len() && #[trigger] self.entries@[j].name@ == n by {
            if n == name@ {
                assert(self.entries@[prev.len() as int].name@ == n);
            } else {
                if mid.contains_key(n) {
                    let j = choose|j: int| 0 <= j < prev.len() && #[trigger] prev[j].name@ == n;
                    assert(self.entries@[j].name@ == n);
                }
                if exists|j: int| 0 <= j < self.entries@.len() && #[trigger] self.entries@[j].name@ == n {
                    let j = choose|j: int|
                        0 <= j < self.entries@.len() && #[trigger] self.entries@[j].name@ == n;
                    assert(j < prev.len());
                    assert(prev[j].name@ == n);
                }
            }
        }
        assert forall|a: int, b: int| 0 <= a < b < self.entries@.len() implies
            #[trigger] self.entries@[a].name@ != #[trigger] self.entries@[b].name@ by {
            if b == prev.len() {
                assert(prev[a].name@ != name@) by {
                    if prev[a].name@ == name@ {
                        assert(mid.contains_key(prev[a].name@));
                    }
                }
            }
        }
        assert forall|a: int| 0 <= a < self.entries@.len() implies {
            &&& #[trigger] self.by_name@[self.entries@[a].name@] == self.entries@[a].context
            &&& self.serial_by_name@[self.entries@[a].name@] == self.entries@[a].serial
        } by {
            if a < prev.len() {
                assert(prev[a].name@ != name@) by {
                    if prev[a].name@ == name@ {
                        assert(mid.contains_key(prev[a].name@));
                    }
                }
            }
        }
        assert(self@ =~= old(self)@.insert(name@, context));
        assert(self.serials() =~= old(self).serials().insert(name@, serial));
        serial
    }
}

/// Registering a context under a name makes every later lookup of that name
/// give back that same context, whatever other names are registered or
/// removed meanwhile.
pub proof fn lemma_registered_context_is_reused<W>(
    reg: Map<Seq<char>, W>,
    name: Seq<char>,
    context: W,
    other: Seq<char>,
    other_context: W,
)
    requires
        other != name,
    ensures
        reg.insert(name, context).contains_key(name),
        reg.insert(name, context)[name] == context,
        reg.insert(name, context).insert(other, other_context).contains_key(name),
        reg.insert(name, context).insert(other, other_context)[name] == context,
        reg.insert(name, context).remove(other).contains_key(name),
        reg.insert(name, context).remove(other)[name] == context,
{
}

/// A context registered before the current registration of its name cannot
/// take that registration away at teardown: its serial never owns the entry,
/// so the newer context stays the one found under the name.
pub proof fn lemma_older_context_keeps_newer_entry<W>(
    before: Registry<W>,
    after: Registry<W>,
    name: Seq<char>,
    context: W,
    older: u64,
)
    requires
        before.wf(),
        older < before.upcoming_serial(),
        after@ == before@.insert(name, context),
        after.serials() == before.serials().insert(name, before.upcoming_serial()),
    ensures
        !after.owns_entry(name, older),
        after@.contains_key(name),
        after@[name] == context,
{
}

/// Once the entry of a name is removed, a lookup of that name finds nothing,
/// so the next request for it builds a fresh context, whose groups start empty.
pub proof fn lemma_removed_name_is_rebuilt<W, T>(
    reg: Map<Seq<char>, W>,
    name: Seq<char>,
    fresh: PendingGroups<T>,
    id: u64,
)
    requires
        fresh@ == Map::<u64, Seq<T>>::empty(),
    ensures
        !reg.remove(name).contains_key(name),
        !fresh@.contains_key(id),
{
}

} // verus!
