//! The registry of attached devices of one family: the live map from port
//! identifier to device handle, the set of identifiers that a caller removed,
//! and the decision step of each poll against a fresh port enumeration.
//!
//! The registry holds no thread and does no I/O: whoever runs the poll loop
//! enumerates the ports, hands them to `poll`, opens each identifier that
//! `poll` returns, and passes each opened device to `insert_device`.
use vstd::prelude::*;
use crate::protocol::DeviceError;
use crate::serial_device::{matching_names, matching_port_names, PortInfo, SerialDevice};

verus! {

/// The identifiers of a sequence of entries, in order.
pub open spec fn keys_of<D>(s: Seq<(String, D)>) -> Seq<Seq<char>> {
    s.map_values(|e: (String, D)| e.0@)
}

/// The map that a sequence of entries with distinct identifiers stands for.
pub open spec fn map_of<D>(s: Seq<(String, D)>) -> Map<Seq<char>, D> {
    Map::new(
        |k: Seq<char>| keys_of(s).contains(k),
        |k: Seq<char>| s[keys_of(s).index_of(k)].1,
    )
}

/// The identifiers in a sequence of strings, in order.
pub open spec fn names_of(s: Seq<String>) -> Seq<Seq<char>> {
    s.map_values(|n: String| n@)
}

/// The set of identifiers in a sequence of strings.
pub open spec fn name_set(s: Seq<String>) -> Set<Seq<char>> {
    names_of(s).to_set()
}

proof fn lemma_lookup<D>(s: Seq<(String, D)>, i: int)
    requires
        keys_of(s).no_duplicates(),
        0 <= i < s.len(),
    ensures
        map_of(s).dom().contains(s[i].0@),
        map_of(s)[s[i].0@] == s[i].1,
{
    let keys = keys_of(s);
    assert(keys[i] == s[i].0@);
    assert(keys.contains(s[i].0@));
    let j = keys.index_of(s[i].0@);
    assert(keys[j] == keys[i]);
}

proof fn lemma_map_remove<D>(s: Seq<(String, D)>, i: int)
    requires
        keys_of(s).no_duplicates(),
        0 <= i < s.len(),
    ensures
        keys_of(s.remove(i)).no_duplicates(),
        map_of(s.remove(i)) == map_of(s).remove(s[i].0@),
        forall|j: int| 0 <= j < i ==> #[trigger] keys_of(s.remove(i))[j] == keys_of(s)[j],
{
    let t = s.remove(i);
    let ks = keys_of(s);
    let kt = keys_of(t);
    assert forall|j: int| 0 <= j < t.len() implies #[trigger] kt[j] == ks[if j < i {
        j
    } else {
        j + 1
    }] by {}
    assert forall|a: int, b: int| 0 <= a < kt.len() && 0 <= b < kt.len() && a != b implies kt[a]
        != kt[b] by {
        let a0 = if a < i { a } else { a + 1 };
        let b0 = if b < i { b } else { b + 1 };
        assert(kt[a] == ks[a0]);
        assert(kt[b] == ks[b0]);
    }
    let m = map_of(s).remove(s[i].0@);
    assert forall|k: Seq<char>| #[trigger] map_of(t).dom().contains(k) <==> m.dom().contains(k) by {
        if kt.contains(k) {
            let j = choose|j: int| 0 <= j < kt.len() && kt[j] == k;
            let j0 = if j < i { j } else { j + 1 };
            assert(ks[j0] == k);
            assert(ks.contains(k));
            assert(ks[i] != ks[j0]);
        }
        if m.dom().contains(k) {
            let j = choose|j: int| 0 <= j < ks.len() && ks[j] == k;
            assert(j != i);
            let jt = if j < i { j } else { j - 1 };
            assert(kt[jt] == k);
        }
    }
    assert forall|k: Seq<char>| #[trigger] map_of(t).dom().contains(k) implies map_of(t)[k] == m[k] by {
        let j = kt.index_of(k);
        let j0 = if j < i { j } else { j + 1 };
        assert(kt[j] == ks[j0]);
        assert(t[j] == s[j0]);
        lemma_lookup(t, j);
        lemma_lookup(s, j0);
    }
    assert(map_of(t) =~= m);
}

proof fn lemma_map_push<D>(s: Seq<(String, D)>, e: (String, D))
    requires
        keys_of(s).no_duplicates(),
        !keys_of(s).contains(e.0@),
    ensures
        keys_of(s.push(e)).no_duplicates(),
        map_of(s.push(e)) == map_of(s).insert(e.0@, e.1),
{
    let t = s.push(e);
    let ks = keys_of(s);
    let kt = keys_of(t);
    assert(kt =~= ks.push(e.0@));
    let m = map_of(s).insert(e.0@, e.1);
    assert forall|k: Seq<char>| #[trigger] map_of(t).dom().contains(k) <==> m.dom().contains(k) by {
        if kt.contains(k) {
            let j = choose|j: int| 0 <= j < kt.len() && kt[j] == k;
            if j < ks.len() {
                assert(ks[j] == k);
            }
        }
        if ks.contains(k) {
            let j = choose|j: int| 0 <= j < ks.len() && ks[j] == k;
            assert(kt[j] == k);
        }
        if k == e.0@ {
            assert(kt[ks.len() as int] == k);
        }
    }
    assert forall|k: Seq<char>| #[trigger] map_of(t).dom().contains(k) implies map_of(t)[k] == m[k] by {
        let j = kt.index_of(k);
        lemma_lookup(t, j);
        if j < s.len() {
            assert(ks[j] == k);
            lemma_lookup(s, j);
        }
    }
    assert(map_of(t) =~= m);
}

proof fn lemma_contains_push(s: Seq<Seq<char>>, x: Seq<char>, k: Seq<char>)
    ensures
        s.push(x).contains(k) <==> s.contains(k) || k == x,
{
    if s.push(x).contains(k) {
        let j = choose|j: int| 0 <= j < s.len() + 1 && s.push(x)[j] == k;
        if j < s.len() {
            assert(s[j] == k);
        }
    }
    if s.contains(k) {
        let j = choose|j: int| 0 <= j < s.len() && s[j] == k;
        assert(s.push(x)[j] == k);
    }
    if k == x {
        assert(s.push(x)[s.len() as int] == k);
    }
}

/// Whether `name` is among `names`.
fn contains_name(names: &Vec<String>, name: &String) -> (r: bool)
    ensures
        r == names@.map_values(|s: String| s@).contains(name@),
{
    let ghost v = names@.map_values(|s: String| s@);
    let mut i: usize = 0;
    while i < names.len()
        invariant
            i <= names@.len(),
            v == names@.map_values(|s: String| s@),
            forall|j: int| 0 <= j < i ==> v[j] != name@,
        decreases names@.len() - i,
    {
        if names[i] == *name {
            assert(v[i as int] == name@);
            return true;
        }
        i = i + 1;
    }
    false
}

/// Keeps track of the attached devices of the family `T`.
pub struct SerialDeviceManager<T: SerialDevice> {
    devices: Vec<(String, T::Device)>,
    removed: Vec<String>,
}

impl<T: SerialDevice> SerialDeviceManager<T> {
    /// The identifiers of the live devices, in the registry's order.
    pub closed spec fn keys(&self) -> Seq<Seq<char>> {
        keys_of(self.devices@)
    }

    /// The live devices by identifier.
    pub closed spec fn device_map(&self) -> Map<Seq<char>, T::Device> {
        map_of(self.devices@)
    }

    /// The identifiers that a caller removed.
    pub closed spec fn removed_set(&self) -> Set<Seq<char>> {
        name_set(self.removed@)
    }

    /// Identifiers are unique, and none of them was removed.
    pub closed spec fn wf(&self) -> bool {
        &&& self.keys().no_duplicates()
        &&& forall|k: Seq<char>| self.keys().contains(k) ==> !self.removed_set().contains(k)
    }

    /// The listed identifiers are distinct and are exactly the live ones.
    pub proof fn lemma_keys_are_domain(&self)
        requires
            self.wf(),
        ensures
            self.keys().no_duplicates(),
            self.keys().to_set() == self.device_map().dom(),
    {
        assert(self.keys().to_set() =~= self.device_map().dom());
    }

    /// An empty registry. The caller runs the poll loop.
    pub fn new() -> (r: Self)
        ensures
            r.wf(),
            r.keys() == Seq::<Seq<char>>::empty(),
            r.device_map() == Map::<Seq<char>, T::Device>::empty(),
            r.removed_set() == Set::<Seq<char>>::empty(),
    {
        let r = SerialDeviceManager { devices: Vec::new(), removed: Vec::new() };
        assert(r.keys() =~= Seq::<Seq<char>>::empty());
        assert(r.device_map() =~= Map::<Seq<char>, T::Device>::empty());
        assert(r.removed_set() =~= Set::<Seq<char>>::empty());
        r
    }

    /// The position of the live device `name`, if any.
    fn index_of_key(&self, name: &String) -> (r: Option<usize>)
        ensures
            r matches Some(i) ==> i < self.devices@.len() && self.keys()[i as int] == name@,
            r is None ==> !self.keys().contains(name@),
    {
        let mut i: usize = 0;
        while i < self.devices.len()
            invariant
                i <= self.devices@.len(),
                forall|j: int| 0 <= j < i ==> self.keys()[j] != name@,
            decreases self.devices@.len() - i,
        {
            if self.devices[i].0 == *name {
                return Some(i);
            }
            i = i + 1;
        }
        None
    }

    /// Whether `name` was removed by a caller.
    fn is_removed(&self, name: &String) -> (r: bool)
        ensures
            r == self.removed_set().contains(name@),
    {
        let mut i: usize = 0;
        while i < self.removed.len()
            invariant
                i <= self.removed@.len(),
                forall|j: int| 0 <= j < i ==> self.removed@[j]@ != name@,
            decreases self.removed@.len() - i,
        {
            if self.removed[i] == *name {
                assert(self.removed@.map_values(|n: String| n@)[i as int] == name@);
                return true;
            }
            i = i + 1;
        }
        assert(!self.removed@.map_values(|n: String| n@).contains(name@));
        false
    }

    /// The identifiers of the attached devices.
    pub fn get_devices(&self) -> (r: Vec<String>)
        ensures
            r@.map_values(|s: String| s@) == self.keys(),
    {
        let mut r: Vec<String> = Vec::new();
        let mut i: usize = 0;
        while i < self.devices.len()
            invariant
                i <= self.devices@.len(),
                r@.map_values(|s: String| s@) == self.keys().subrange(0, i as int),
            decreases self.devices@.len() - i,
        {
            let name = self.devices[i].0.clone();
            assert(name@ == self.keys()[i as int]);
            let ghost prev = r@;
            r.push(name);
            assert(self.keys().subrange(0, i + 1) =~= self.keys().subrange(0, i as int).push(
                self.keys()[i as int],
            ));
            assert(r@.map_values(|s: String| s@) =~= prev.map_values(|s: String| s@).push(
                self.keys()[i as int],
            ));
            i = i + 1;
        }
        assert(self.keys().subrange(0, i as int) =~= self.keys());
        r
    }

    /// The device with the identifier `port_name`, if it is live.
    pub fn get_device(&self, port_name: &str) -> (r: Option<&T::Device>)
        requires
            self.wf(),
        ensures
            r is Some <==> self.device_map().dom().contains(port_name@),
            r matches Some(d) ==> *d == self.device_map()[port_name@],
    {
        let name = String::from_str(port_name);
        match self.index_of_key(&name) {
            Some(i) => {
                proof {
                    lemma_lookup(self.devices@, i as int);
                }
                Some(&self.devices[i].1)
            },
            None => None,
        }
    }

    /// The device with the identifier `port_name`, or why there is none: the
    /// identifier was removed by a caller, or it is not live.
    pub fn find_device(&self, port_name: &str) -> (r: Result<&T::Device, DeviceError>)
        requires
            self.wf(),
        ensures
            self.device_map().dom().contains(port_name@) ==> (r matches Ok(d) && *d
                == self.device_map()[port_name@]),
            self.removed_set().contains(port_name@) ==> r == Err::<&T::Device, DeviceError>(
                DeviceError::DeviceRemoved,
            ),
            !self.device_map().dom().contains(port_name@) && !self.removed_set().contains(
                port_name@,
            ) ==> r == Err::<&T::Device, DeviceError>(DeviceError::DeviceNotFound),
    {
        let name = String::from_str(port_name);
        if self.is_removed(&name) {
            proof {
                if self.device_map().dom().contains(port_name@) {
                    assert(self.keys().contains(port_name@));
                }
            }
            return Err(DeviceError::DeviceRemoved);
        }
        match self.get_device(port_name) {
            Some(d) => Ok(d),
            None => Err(DeviceError::DeviceNotFound),
        }
    }

    /// Drops the device `port_name` from the live map, if it is there, and
    /// records the identifier as removed, so that no poll brings it back.
    pub fn remove_device(&mut self, port_name: &str) -> (r: bool)
        requires
            old(self).wf(),
        ensures
            r,
            final(self).wf(),
            final(self).device_map() == old(self).device_map().remove(port_name@),
            final(self).removed_set() == old(self).removed_set().insert(port_name@),
    {
        let name = String::from_str(port_name);
        let ghost before = self.devices@;
        match self.index_of_key(&name) {
            Some(i) => {
                proof {
                    lemma_map_remove(before, i as int);
                }
                let _gone = self.devices.remove(i);
            },
            None => {
                assert(map_of(before) =~= map_of(before).remove(port_name@));
            },
        }
        if !self.is_removed(&name) {
            self.removed.push(name);
        }
        assert(self.removed_set() =~= old(self).removed_set().insert(port_name@)) by {
            let v = self.removed@.map_values(|n: String| n@);
            let v0 = old(self).removed@.map_values(|n: String| n@);
            assert forall|k: Seq<char>| v.contains(k) <==> v0.contains(k) || k == port_name@ by {
                if v.contains(k) {
                    let j = choose|j: int| 0 <= j < v.len() && v[j] == k;
                    if j < v0.len() {
                        assert(v0[j] == k);
                    }
                }
                if v0.contains(k) {
                    let j = choose|j: int| 0 <= j < v0.len() && v0[j] == k;
                    assert(v[j] == k);
                }
                if k == port_name@ && !v0.contains(k) {
                    assert(v[v.len() - 1] == k);
                }
            }
        }
        proof {
            assert forall|k: Seq<char>| self.keys().contains(k) implies !self.removed_set().contains(k) by {
                let j = choose|j: int| 0 <= j < self.keys().len() && self.keys()[j] == k;
                lemma_lookup(self.devices@, j);
                assert(self.device_map().dom().contains(k));
                assert(old(self).device_map().dom().contains(k));
            }
        }
        true
    }

    /// Adds the device that was opened on `port_name`, unless that identifier
    /// is live already or was removed; then the device is dropped instead.
    pub fn insert_device(&mut self, port_name: String, device: T::Device) -> (r: bool)
        requires
            old(self).wf(),
        ensures
            final(self).wf(),
            r == !(old(self).device_map().dom().contains(port_name@) || old(
                self,
            ).removed_set().contains(port_name@)),
            r ==> final(self).device_map() == old(self).device_map().insert(port_name@, device),
            !r ==> final(self).device_map() == old(self).device_map(),
            final(self).removed_set() == old(self).removed_set(),
    {
        if self.is_removed(&port_name) {
            return false;
        }
        match self.index_of_key(&port_name) {
            Some(i) => {
                proof {
                    lemma_lookup(self.devices@, i as int);
                }
                false
            },
            None => {
                let ghost before = self.devices@;
                let ghost name = port_name@;
                proof {
                    lemma_map_push(before, (port_name, device));
                }
                self.devices.push((port_name, device));
                proof {
                    assert forall|k: Seq<char>| self.keys().contains(k) implies !self.removed_set().contains(k) by {
                        lemma_contains_push(keys_of(before), name, k);
                        assert(keys_of(self.devices@) =~= keys_of(before).push(name));
                    }
                }
                true
            },
        }
    }

    /// One poll cycle's decisions on a fresh enumeration `ports`: drops every
    /// live device whose port no longer matches the family's USB ids, and
    /// returns, once each, the matching identifiers that are neither live nor
    /// removed. The caller opens those and hands each opened device to
    /// `insert_device`; one that fails to open is tried again next cycle.
    pub fn poll(&mut self, ports: &Vec<PortInfo>) -> (to_open: Vec<String>)
        requires
            old(self).wf(),
        ensures
            final(self).wf(),
            final(self).removed_set() == old(self).removed_set(),
            final(self).device_map() == old(self).device_map().restrict(
                matching_names(ports@, T::VID, T::PID).to_set(),
            ),
            names_of(to_open@).no_duplicates(),
            name_set(to_open@) == matching_names(ports@, T::VID, T::PID).to_set().difference(
                old(self).device_map().dom(),
            ).difference(old(self).removed_set()),
    {
        let names = matching_port_names(ports, T::VID, T::PID);
        let ghost nv = names_of(names@);
        let ghost matched = nv.to_set();
        let ghost old_map = self.device_map();
        let ghost removed = self.removed_set();
        let mut i: usize = 0;
        while i < self.devices.len()
            invariant
                i <= self.devices@.len(),
                nv == names_of(names@),
                matched == nv.to_set(),
                removed == old(self).removed_set(),
                old_map == old(self).device_map(),
                old(self).wf(),
                self.removed == old(self).removed,
                keys_of(self.devices@).no_duplicates(),
                forall|k: Seq<char>| #[trigger]
                    map_of(self.devices@).dom().contains(k) ==> old_map.dom().contains(k)
                        && map_of(self.devices@)[k] == old_map[k],
                forall|k: Seq<char>|
                    old_map.dom().contains(k) && matched.contains(k) ==> #[trigger] map_of(
                        self.devices@,
                    ).dom().contains(k),
                forall|j: int| 0 <= j < i ==> matched.contains(#[trigger] keys_of(self.devices@)[j]),
            decreases self.devices@.len() - i,
        {
            let keep = contains_name(&names, &self.devices[i].0);
            if keep {
                i = i + 1;
            } else {
                let ghost before = self.devices@;
                proof {
                    lemma_map_remove(before, i as int);
                    assert(keys_of(before)[i as int] == before[i as int].0@);
                }
                let _gone = self.devices.remove(i);
            }
        }
        proof {
            assert(self.device_map() =~= old_map.restrict(matched)) by {
                assert forall|k: Seq<char>| #[trigger]
                    self.device_map().dom().contains(k) implies matched.contains(k) by {
                    let j = choose|j: int| 0 <= j < self.keys().len() && self.keys()[j] == k;
                }
            }
            assert forall|k: Seq<char>| self.keys().contains(k) implies !self.removed_set().contains(k) by {
                assert(self.device_map().dom().contains(k));
                assert(old_map.dom().contains(k));
            }
        }
        let mut to_open: Vec<String> = Vec::new();
        let mut j: usize = 0;
        while j < names.len()
            invariant
                j <= names@.len(),
                nv == names_of(names@),
                self.wf(),
                self.device_map() == old_map.restrict(matched),
                self.removed_set() == removed,
                names_of(to_open@).no_duplicates(),
                forall|k: Seq<char>|
                    #[trigger] names_of(to_open@).contains(k) <==> (nv.subrange(
                        0,
                        j as int,
                    ).contains(k) && !self.device_map().dom().contains(k)
                        && !self.removed_set().contains(k)),
            decreases names@.len() - j,
        {
            let name = &names[j];
            let ghost tv = names_of(to_open@);
            proof {
                assert(nv.subrange(0, j + 1) =~= nv.subrange(0, j as int).push(name@));
            }
            if self.index_of_key(name).is_none() && !self.is_removed(name) && !contains_name(
                &to_open,
                name,
            ) {
                to_open.push(name.clone());
                proof {
                    assert(names_of(to_open@) =~= tv.push(name@));
                    assert forall|k: Seq<char>|
                        #[trigger] names_of(to_open@).contains(k) <==> (nv.subrange(
                            0,
                            j + 1,
                        ).contains(k) && !self.device_map().dom().contains(k)
                            && !self.removed_set().contains(k)) by {
                        lemma_contains_push(tv, name@, k);
                        lemma_contains_push(nv.subrange(0, j as int), name@, k);
                    }
                    assert forall|a: int, b: int|
                        0 <= a < tv.len() + 1 && 0 <= b < tv.len() + 1 && a != b implies tv.push(
                        name@,
                    )[a] != tv.push(name@)[b] by {
                        if a == tv.len() {
                            assert(tv.contains(tv[b]));
                        } else if b == tv.len() {
                            assert(tv.contains(tv[a]));
                        }
                    }
                }
            } else {
                proof {
                    assert forall|k: Seq<char>|
                        #[trigger] tv.contains(k) <==> (nv.subrange(0, j + 1).contains(k)
                            && !self.device_map().dom().contains(k)
                            && !self.removed_set().contains(k)) by {
                        lemma_contains_push(nv.subrange(0, j as int), name@, k);
                    }
                }
            }
            j = j + 1;
        }
        proof {
            assert(nv.subrange(0, nv.len() as int) =~= nv);
            assert(name_set(to_open@) =~= matched.difference(old_map.dom()).difference(removed));
        }
        to_open
    }
}

/// After one poll cycle in which every identifier that `poll` handed out was
/// opened and inserted, the live devices are exactly the matching ports of
/// the enumeration that were not removed: ports that vanished are gone, new
/// ones are there.
pub proof fn lemma_poll_cycle<T: SerialDevice>(
    before: SerialDeviceManager<T>,
    polled: SerialDeviceManager<T>,
    after: SerialDeviceManager<T>,
    ports: Seq<PortInfo>,
    opened: Set<Seq<char>>,
)
    requires
        before.wf(),
        polled.device_map() == before.device_map().restrict(
            matching_names(ports, T::VID, T::PID).to_set(),
        ),
        polled.removed_set() == before.removed_set(),
        opened == matching_names(ports, T::VID, T::PID).to_set().difference(
            before.device_map().dom(),
        ).difference(before.removed_set()),
        after.device_map().dom() == polled.device_map().dom().union(opened),
        after.removed_set() == polled.removed_set(),
    ensures
        after.device_map().dom() == matching_names(ports, T::VID, T::PID).to_set().difference(
            before.removed_set(),
        ),
{
    let matched = matching_names(ports, T::VID, T::PID).to_set();
    assert forall|k: Seq<char>| before.device_map().dom().contains(k) implies !before.removed_set().contains(k) by {
        assert(before.keys().contains(k));
    }
    assert(after.device_map().dom() =~= matched.difference(before.removed_set()));
}

/// An identifier that a caller removed is never live in a well-formed
/// registry; every operation keeps the registry well formed and no operation
/// takes an identifier out of the removed set.
pub proof fn lemma_removal_permanent<T: SerialDevice>(m: SerialDeviceManager<T>, k: Seq<char>)
    requires
        m.wf(),
        m.removed_set().contains(k),
    ensures
        !m.device_map().dom().contains(k),
{
    if m.device_map().dom().contains(k) {
        assert(m.keys().contains(k));
    }
}

} // verus!
