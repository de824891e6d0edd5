//! The device registry: a mapping from device names to network addresses
//! together with an optional default device, and the resolution algorithm
//! that turns an optional user-supplied identifier into an address.

use vstd::prelude::*;
use vstd::string::StringExecFns;

use crate::text::str_eq;

verus! {

/// One registry entry: a device name and its network address.
pub struct Device {
    pub name: String,
    pub address: String,
}

/// The registry: named devices plus an optional default device.
///
/// Entries are kept in insertion order; names are unique.
pub struct Config {
    pub devices: Vec<Device>,
    pub default_device: Option<String>,
}

/// The mathematical model of a registry: the sequence of (name, address)
/// pairs, in order, and the name of the default device, if any.
#[verifier::ext_equal]
pub ghost struct RegView {
    pub pairs: Seq<(Seq<char>, Seq<char>)>,
    pub default_name: Option<Seq<char>>,
}

impl View for Config {
    type V = RegView;

    open spec fn view(&self) -> RegView {
        RegView {
            pairs: self.devices@.map_values(|d: Device| (d.name@, d.address@)),
            default_name: match self.default_device {
                Some(s) => Some(s@),
                None => None,
            },
        }
    }
}

/// The index of the first pair named `name`, if any.
pub open spec fn find_in(pairs: Seq<(Seq<char>, Seq<char>)>, name: Seq<char>) -> Option<nat>
    decreases pairs.len(),
{
    if pairs.len() == 0 {
        None
    } else if pairs[0].0 == name {
        Some(0 as nat)
    } else {
        match find_in(pairs.drop_first(), name) {
            Some(i) => Some((i + 1) as nat),
            None => None,
        }
    }
}

/// `find_in` returns the first index whose pair carries `name`, or `None`
/// when no pair does.
pub proof fn lemma_find_in(pairs: Seq<(Seq<char>, Seq<char>)>, name: Seq<char>)
    ensures
        match find_in(pairs, name) {
            Some(i) => i < pairs.len() && pairs[i as int].0 == name && (forall|j: int|
                0 <= j < i ==> pairs[j].0 != name),
            None => forall|j: int| 0 <= j < pairs.len() ==> pairs[j].0 != name,
        },
    decreases pairs.len(),
{
    if pairs.len() == 0 {
    } else if pairs[0].0 == name {
    } else {
        lemma_find_in(pairs.drop_first(), name);
        assert(forall|j: int|
            1 <= j < pairs.len() ==> #[trigger] pairs[j] == pairs.drop_first()[j - 1]);
    }
}

/// Conversely, the first index whose pair carries `name` is what `find_in`
/// returns.
pub proof fn lemma_find_in_first(pairs: Seq<(Seq<char>, Seq<char>)>, name: Seq<char>, i: int)
    requires
        0 <= i < pairs.len(),
        pairs[i].0 == name,
        forall|j: int| 0 <= j < i ==> pairs[j].0 != name,
    ensures
        find_in(pairs, name) == Some(i as nat),
    decreases pairs.len(),
{
    if i == 0 {
    } else {
        assert(pairs[0].0 != name);
        assert(forall|j: int|
            1 <= j < pairs.len() ==> #[trigger] pairs[j] == pairs.drop_first()[j - 1]);
        lemma_find_in_first(pairs.drop_first(), name, i - 1);
    }
}

impl RegView {
    /// Whether some pair carries `name`.
    pub open spec fn contains_name(self, name: Seq<char>) -> bool {
        find_in(self.pairs, name) is Some
    }

    /// The address of the first pair named `name`.
    pub open spec fn addr_of(self, name: Seq<char>) -> Seq<char> {
        self.pairs[find_in(self.pairs, name)->0 as int].1
    }

    /// Well-formedness: device names are unique.
    pub open spec fn wf(self) -> bool {
        forall|i: int, j: int|
            0 <= i < j < self.pairs.len() ==> (#[trigger] self.pairs[i]).0 != (
            #[trigger] self.pairs[j]).0
    }

    /// The default-device policy the mutations maintain: an empty registry
    /// has no default, and a non-empty one has a default naming a present
    /// device.
    pub open spec fn default_consistent(self) -> bool {
        match self.default_name {
            Some(d) => self.contains_name(d),
            None => self.pairs.len() == 0,
        }
    }
}

/// The effect of `add_device` on the model: insert or overwrite the entry
/// for `name`, then make `name` the default if it is the only entry.
pub open spec fn spec_add(v: RegView, name: Seq<char>, addr: Seq<char>) -> RegView {
    let pairs = match find_in(v.pairs, name) {
        Some(i) => v.pairs.update(i as int, (name, addr)),
        None => v.pairs.push((name, addr)),
    };
    RegView {
        pairs: pairs,
        default_name: if pairs.len() == 1 {
            Some(name)
        } else {
            v.default_name
        },
    }
}

/// The effect of a successful `remove_device` on the model: drop the entry
/// for `name`; if `name` was the default, the first remaining entry (in
/// insertion order) becomes the default, or no entry does when none remains.
pub open spec fn spec_remove(v: RegView, name: Seq<char>) -> RegView {
    let pairs = v.pairs.remove(find_in(v.pairs, name)->0 as int);
    RegView {
        pairs: pairs,
        default_name: if v.default_name == Some(name) {
            if pairs.len() > 0 {
                Some(pairs[0].0)
            } else {
                None
            }
        } else {
            v.default_name
        },
    }
}

/// The resolution algorithm: a known name resolves to its address and any
/// other identifier passes through unchanged; with no identifier at all,
/// resolution yields the default device's address when the default names a
/// present device, and fails (`None`) otherwise.
pub open spec fn spec_resolve(v: RegView, id: Option<Seq<char>>) -> Option<Seq<char>> {
    match id {
        Some(s) => if v.contains_name(s) {
            Some(v.addr_of(s))
        } else {
            Some(s)
        },
        None => match v.default_name {
            Some(d) => if v.contains_name(d) {
                Some(v.addr_of(d))
            } else {
                None
            },
            None => None,
        },
    }
}

/// The message reported when a mutation names an absent device.
pub open spec fn not_found_msg(name: Seq<char>) -> Seq<char> {
    "Device '"@ + name + "' not found"@
}

/// The message reported when resolution finds neither an identifier nor a
/// usable default.
pub open spec fn no_device_msg() -> Seq<char> {
    "No device specified and no default device set"@
}

fn not_found_message(name: &str) -> (m: String)
    ensures
        m@ == not_found_msg(name@),
{
    let mut m = String::from_str("Device '");
    m.append(name);
    m.append("' not found");
    m
}

impl Config {
    /// The empty registry: no devices, no default.
    pub fn new() -> (c: Config)
        ensures
            c@.pairs == Seq::<(Seq<char>, Seq<char>)>::empty(),
            c@.default_name is None,
            c@.wf(),
            c@.default_consistent(),
    {
        let c = Config { devices: Vec::new(), default_device: None };
        proof {
            assert(c@.pairs =~= Seq::<(Seq<char>, Seq<char>)>::empty());
        }
        c
    }

    /// The index of the device named `name`, if any.
    fn find_index(&self, name: &str) -> (r: Option<usize>)
        ensures
            match r {
                Some(i) => find_in(self@.pairs, name@) == Some(i as nat),
                None => find_in(self@.pairs, name@) is None,
            },
    {
        let mut i: usize = 0;
        while i < self.devices.len()
            invariant
                i <= self.devices.len(),
                forall|j: int| 0 <= j < i ==> self@.pairs[j].0 != name@,
            decreases self.devices.len() - i,
        {
            if str_eq(self.devices[i].name.as_str(), name) {
                proof {
                    lemma_find_in_first(self@.pairs, name@, i as int);
                }
                return Some(i);
            }
            i += 1;
        }
        proof {
            lemma_find_in(self@.pairs, name@);
        }
        None
    }

    /// Inserts or overwrites the entry for `name`; if the registry then holds
    /// exactly one entry, that entry becomes the default.  Always succeeds.
    pub fn add_device(&mut self, name: String, ip: String)
        ensures
            final(self)@ == spec_add(old(self)@, name@, ip@),
            old(self)@.wf() ==> final(self)@.wf(),
    {
        let idx = self.find_index(name.as_str());
        match idx {
            Some(i) => {
                proof {
                    lemma_find_in(old(self)@.pairs, name@);
                }
                self.devices[i] = Device { name: name.clone(), address: ip };
            }
            None => {
                self.devices.push(Device { name: name.clone(), address: ip });
            }
        }
        if self.devices.len() == 1 {
            self.default_device = Some(name);
        }
        proof {
            assert(final(self)@.pairs =~~= spec_add(old(self)@, name@, ip@).pairs);
            assert(final(self)@ =~~= spec_add(old(self)@, name@, ip@));
            if old(self)@.wf() {
                lemma_add_wf(old(self)@, name@, ip@);
            }
        }
    }

    /// Removes the entry for `name`, reporting `NotFound` when there is none.
    /// When the removed device was the default, the first remaining entry
    /// becomes the default, or none does when the registry is left empty.
    pub fn remove_device(&mut self, name: &str) -> (r: Result<(), String>)
        ensures
            r is Ok <==> old(self)@.contains_name(name@),
            old(self)@.contains_name(name@) ==> final(self)@ == spec_remove(old(self)@, name@),
            !old(self)@.contains_name(name@) ==> final(self)@ == old(self)@ && (r matches Err(m)
                && m@ == not_found_msg(name@)),
            old(self)@.wf() ==> final(self)@.wf(),
    {
        let idx = self.find_index(name);
        match idx {
            None => Err(not_found_message(name)),
            Some(i) => {
                proof {
                    lemma_find_in(old(self)@.pairs, name@);
                }
                self.devices.remove(i);
                let was_default = match &self.default_device {
                    Some(d) => str_eq(d.as_str(), name),
                    None => false,
                };
                if was_default {
                    if self.devices.len() > 0 {
                        self.default_device = Some(self.devices[0].name.clone());
                    } else {
                        self.default_device = None;
                    }
                }
                proof {
                    assert(final(self)@ =~~= spec_remove(old(self)@, name@));
                    if old(self)@.wf() {
                        lemma_remove_wf(old(self)@, name@);
                    }
                }
                Ok(())
            }
        }
    }

    /// Makes `name` the default device, reporting `NotFound` when no device
    /// carries that name.
    pub fn set_default(&mut self, name: &str) -> (r: Result<(), String>)
        ensures
            r is Ok <==> old(self)@.contains_name(name@),
            old(self)@.contains_name(name@) ==> final(self)@.pairs == old(self)@.pairs
                && final(self)@.default_name == Some(name@),
            !old(self)@.contains_name(name@) ==> final(self)@ == old(self)@ && (r matches Err(m)
                && m@ == not_found_msg(name@)),
            old(self)@.wf() ==> final(self)@.wf(),
    {
        let idx = self.find_index(name);
        match idx {
            None => Err(not_found_message(name)),
            Some(_i) => {
                self.default_device = Some(String::from_str(name));
                Ok(())
            }
        }
    }

    /// Resolution: a known name yields its stored address; any other explicit
    /// identifier passes through unchanged; with no identifier, the default
    /// device's address is returned when the default names a present device,
    /// and `NoDeviceSpecified` is reported otherwise.
    pub fn get_device_ip(&self, name_or_ip: Option<&str>) -> (r: Result<String, String>)
        ensures
            match spec_resolve(
                self@,
                match name_or_ip {
                    Some(s) => Some(s@),
                    None => None,
                },
            ) {
                Some(a) => r matches Ok(out) && out@ == a,
                None => r matches Err(m) && m@ == no_device_msg(),
            },
    {
        match name_or_ip {
            Some(id) => {
                match self.find_index(id) {
                    Some(i) => {
                        proof {
                            lemma_find_in(self@.pairs, id@);
                        }
                        Ok(self.devices[i].address.clone())
                    }
                    None => Ok(String::from_str(id)),
                }
            }
            None => {
                match &self.default_device {
                    Some(d) => {
                        match self.find_index(d.as_str()) {
                            Some(i) => {
                                proof {
                                    lemma_find_in(self@.pairs, d@);
                                }
                                Ok(self.devices[i].address.clone())
                            }
                            None => Err(String::from_str(
                                "No device specified and no default device set",
                            )),
                        }
                    }
                    None => Err(String::from_str(
                        "No device specified and no default device set",
                    )),
                }
            }
        }
    }

    /// The number of devices in the registry.
    pub fn device_count(&self) -> (n: usize)
        ensures
            n == self@.pairs.len(),
    {
        self.devices.len()
    }

    /// The stored address of the device named `name`, if any.
    pub fn lookup(&self, name: &str) -> (r: Option<String>)
        ensures
            match r {
                Some(a) => self@.contains_name(name@) && a@ == self@.addr_of(name@),
                None => !self@.contains_name(name@),
            },
    {
        match self.find_index(name) {
            Some(i) => {
                proof {
                    lemma_find_in(self@.pairs, name@);
                }
                Some(self.devices[i].address.clone())
            }
            None => None,
        }
    }

    /// Whether `name` is the name of the default device.
    pub fn is_default(&self, name: &str) -> (r: bool)
        ensures
            r == (self@.default_name == Some(name@)),
    {
        match &self.default_device {
            Some(d) => str_eq(d.as_str(), name),
            None => false,
        }
    }

    /// All entries, as (name, address) pairs in registry order.
    pub fn entries(&self) -> (r: Vec<(String, String)>)
        ensures
            r@.len() == self@.pairs.len(),
            forall|i: int|
                0 <= i < r@.len() ==> (#[trigger] r@[i]).0@ == self@.pairs[i].0 && r@[i].1@
                    == self@.pairs[i].1,
    {
        let mut r: Vec<(String, String)> = Vec::new();
        let mut i: usize = 0;
        while i < self.devices.len()
            invariant
                i <= self.devices.len(),
                r@.len() == i,
                forall|j: int|
                    0 <= j < i ==> (#[trigger] r@[j]).0@ == self@.pairs[j].0 && r@[j].1@
                        == self@.pairs[j].1,
            decreases self.devices.len() - i,
        {
            r.push((self.devices[i].name.clone(), self.devices[i].address.clone()));
            i += 1;
        }
        r
    }
}

/// Adding a device preserves name uniqueness.
pub proof fn lemma_add_wf(v: RegView, name: Seq<char>, addr: Seq<char>)
    requires
        v.wf(),
    ensures
        spec_add(v, name, addr).wf(),
{
    lemma_find_in(v.pairs, name);
}

/// Removing a device preserves name uniqueness.
pub proof fn lemma_remove_wf(v: RegView, name: Seq<char>)
    requires
        v.wf(),
        v.contains_name(name),
    ensures
        spec_remove(v, name).wf(),
{
    lemma_find_in(v.pairs, name);
}

/// A name is contained exactly when some pair carries it.
pub proof fn lemma_contains_iff(v: RegView, name: Seq<char>)
    ensures
        v.contains_name(name) <==> exists|i: int|
            0 <= i < v.pairs.len() && (#[trigger] v.pairs[i]).0 == name,
{
    lemma_find_in(v.pairs, name);
    if exists|i: int| 0 <= i < v.pairs.len() && (#[trigger] v.pairs[i]).0 == name {
        let i = choose|i: int| 0 <= i < v.pairs.len() && (#[trigger] v.pairs[i]).0 == name;
        assert(v.pairs[i].0 == name);
    }
}

/// How many pairs carry `name`.
pub open spec fn count_name(pairs: Seq<(Seq<char>, Seq<char>)>, name: Seq<char>) -> nat
    decreases pairs.len(),
{
    if pairs.len() == 0 {
        0
    } else {
        count_name(pairs.drop_first(), name) + if pairs[0].0 == name {
            1 as nat
        } else {
            0 as nat
        }
    }
}

/// In a well-formed registry a contained name occurs in exactly one pair.
pub proof fn lemma_wf_count_one(v: RegView, name: Seq<char>)
    requires
        v.wf(),
    ensures
        v.contains_name(name) ==> count_name(v.pairs, name) == 1,
        !v.contains_name(name) ==> count_name(v.pairs, name) == 0,
{
    lemma_find_in(v.pairs, name);
    lemma_count_zero_iff(v.pairs, name);
    if v.contains_name(name) {
        let i = find_in(v.pairs, name)->0 as int;
        lemma_count_one_at(v.pairs, name, i);
    }
}

proof fn lemma_count_zero_iff(pairs: Seq<(Seq<char>, Seq<char>)>, name: Seq<char>)
    ensures
        count_name(pairs, name) == 0 <==> forall|j: int|
            0 <= j < pairs.len() ==> (#[trigger] pairs[j]).0 != name,
    decreases pairs.len(),
{
    if pairs.len() > 0 {
        lemma_count_zero_iff(pairs.drop_first(), name);
        assert(forall|j: int|
            1 <= j < pairs.len() ==> #[trigger] pairs[j] == pairs.drop_first()[j - 1]);
    }
}

proof fn lemma_count_one_at(pairs: Seq<(Seq<char>, Seq<char>)>, name: Seq<char>, i: int)
    requires
        0 <= i < pairs.len(),
        pairs[i].0 == name,
        forall|j: int| 0 <= j < pairs.len() && j != i ==> (#[trigger] pairs[j]).0 != name,
    ensures
        count_name(pairs, name) == 1,
    decreases pairs.len(),
{
    assert(forall|j: int|
        1 <= j < pairs.len() ==> #[trigger] pairs[j] == pairs.drop_first()[j - 1]);
    if i == 0 {
        lemma_count_zero_iff(pairs.drop_first(), name);
    } else {
        lemma_count_one_at(pairs.drop_first(), name, i - 1);
    }
}

/// The outcome of a sequence of `add_device` calls, applied in order.
pub open spec fn apply_adds(v: RegView, ops: Seq<(Seq<char>, Seq<char>)>) -> RegView
    decreases ops.len(),
{
    if ops.len() == 0 {
        v
    } else {
        apply_adds(spec_add(v, ops[0].0, ops[0].1), ops.drop_first())
    }
}

/// Adding devices whose names are fresh and pairwise distinct to a non-empty
/// registry never changes the default device.
pub proof fn lemma_adds_keep_default(v: RegView, ops: Seq<(Seq<char>, Seq<char>)>)
    requires
        v.pairs.len() > 0,
        forall|k: int| 0 <= k < ops.len() ==> !v.contains_name((#[trigger] ops[k]).0),
        forall|k: int, l: int| 0 <= k < l < ops.len() ==> (#[trigger] ops[k]).0 != (
        #[trigger] ops[l]).0,
    ensures
        apply_adds(v, ops).default_name == v.default_name,
    decreases ops.len(),
{
    if ops.len() > 0 {
        let v1 = spec_add(v, ops[0].0, ops[0].1);
        lemma_find_in(v.pairs, ops[0].0);
        assert(v1.pairs == v.pairs.push((ops[0].0, ops[0].1)));
        assert(v1.pairs.len() >= 2);
        assert(v1.default_name == v.default_name);
        assert(forall|k: int|
            0 <= k < ops.drop_first().len() ==> #[trigger] ops.drop_first()[k] == ops[k + 1]);
        assert forall|k: int| 0 <= k < ops.drop_first().len() implies !v1.contains_name(
            (#[trigger] ops.drop_first()[k]).0,
        ) by {
            let n = ops.drop_first()[k].0;
            lemma_contains_iff(v, n);
            lemma_contains_iff(v1, n);
            assert(forall|i: int|
                0 <= i < v.pairs.len() ==> #[trigger] v1.pairs[i] == v.pairs[i]);
            assert(v1.pairs[v.pairs.len() as int].0 == ops[0].0);
            assert(n != ops[0].0);
        }
        lemma_adds_keep_default(v1, ops.drop_first());
    }
}

/// On an empty registry, the first of a sequence of `add_device` calls with
/// pairwise distinct names sets the default device, and the later calls do
/// not change it.
pub proof fn lemma_first_add_sets_default(v: RegView, ops: Seq<(Seq<char>, Seq<char>)>)
    requires
        v.pairs.len() == 0,
        ops.len() >= 1,
        forall|k: int, l: int| 0 <= k < l < ops.len() ==> (#[trigger] ops[k]).0 != (
        #[trigger] ops[l]).0,
    ensures
        apply_adds(v, ops).default_name == Some(ops[0].0),
    decreases ops.len(),
{
    let v1 = spec_add(v, ops[0].0, ops[0].1);
    assert(v1.pairs.len() == 1);
    assert(v1.default_name == Some(ops[0].0));
    assert(forall|k: int|
        0 <= k < ops.drop_first().len() ==> #[trigger] ops.drop_first()[k] == ops[k + 1]);
    assert forall|k: int| 0 <= k < ops.drop_first().len() implies !v1.contains_name(
        (#[trigger] ops.drop_first()[k]).0,
    ) by {
        let n = ops.drop_first()[k].0;
        lemma_contains_iff(v1, n);
        assert(v1.pairs[0].0 == ops[0].0);
        assert(n != ops[0].0);
    }
    lemma_adds_keep_default(v1, ops.drop_first());
}

/// Overwriting an entry: adding `name` twice in a row leaves exactly one
/// entry for `name`, holding the second address, and leaves the default
/// device where the first add put it.
pub proof fn lemma_add_overwrites(
    v: RegView,
    name: Seq<char>,
    addr1: Seq<char>,
    addr2: Seq<char>,
)
    requires
        v.wf(),
    ensures
        spec_add(spec_add(v, name, addr1), name, addr2).contains_name(name),
        spec_add(spec_add(v, name, addr1), name, addr2).addr_of(name) == addr2,
        count_name(spec_add(spec_add(v, name, addr1), name, addr2).pairs, name) == 1,
        spec_add(spec_add(v, name, addr1), name, addr2).default_name == spec_add(
            v,
            name,
            addr1,
        ).default_name,
{
    let v1 = spec_add(v, name, addr1);
    let v2 = spec_add(v1, name, addr2);
    lemma_find_in(v.pairs, name);
    lemma_add_wf(v, name, addr1);
    lemma_find_in(v1.pairs, name);
    lemma_add_wf(v1, name, addr2);
    lemma_find_in(v2.pairs, name);
    lemma_wf_count_one(v2, name);
    assert(v1.contains_name(name)) by {
        lemma_contains_iff(v1, name);
        match find_in(v.pairs, name) {
            Some(i) => {
                assert(v1.pairs[i as int].0 == name);
            }
            None => {
                assert(v1.pairs[v.pairs.len() as int].0 == name);
            }
        }
    }
    assert(v2.contains_name(name)) by {
        lemma_contains_iff(v2, name);
        let i = find_in(v1.pairs, name)->0 as int;
        assert(v2.pairs[i].0 == name);
    }
    assert(v2.pairs.len() == v1.pairs.len());
}

/// Removing the current default from a registry with at least two devices
/// leaves a default that names a device still present.
pub proof fn lemma_remove_default_reassigns(v: RegView, name: Seq<char>)
    requires
        v.contains_name(name),
        v.default_name == Some(name),
        v.pairs.len() >= 2,
    ensures
        spec_remove(v, name).default_name is Some,
        spec_remove(v, name).contains_name(spec_remove(v, name).default_name->0),
{
    let w = spec_remove(v, name);
    lemma_find_in(v.pairs, name);
    assert(w.pairs.len() == v.pairs.len() - 1);
    assert(w.default_name == Some(w.pairs[0].0));
    lemma_contains_iff(w, w.pairs[0].0);
}

/// Removing the last remaining device leaves the registry empty with no
/// default device.
pub proof fn lemma_remove_last_device(v: RegView, name: Seq<char>)
    requires
        v.contains_name(name),
        v.default_consistent(),
        v.pairs.len() == 1,
    ensures
        spec_remove(v, name).pairs.len() == 0,
        spec_remove(v, name).default_name is None,
{
    lemma_find_in(v.pairs, name);
    let d = v.default_name->0;
    lemma_find_in(v.pairs, d);
    assert(d == v.pairs[0].0);
    assert(name == v.pairs[0].0);
}

/// `add_device` keeps the default-device policy: the registry stays
/// non-empty and its default still names a present device.
pub proof fn lemma_add_keeps_consistent(v: RegView, name: Seq<char>, addr: Seq<char>)
    requires
        v.default_consistent(),
    ensures
        spec_add(v, name, addr).default_consistent(),
        spec_add(v, name, addr).pairs.len() > 0,
{
    let w = spec_add(v, name, addr);
    lemma_find_in(v.pairs, name);
    if w.pairs.len() == 1 {
        lemma_contains_iff(w, name);
        assert(w.pairs[0].0 == name);
    } else {
        let d = v.default_name->0;
        lemma_find_in(v.pairs, d);
        let i = find_in(v.pairs, d)->0 as int;
        lemma_contains_iff(w, d);
        assert(w.pairs[i].0 == d);
    }
}

/// A successful `remove_device` keeps the default-device policy: the default
/// is cleared only when the registry is emptied, and otherwise names a
/// device still present.
pub proof fn lemma_remove_keeps_consistent(v: RegView, name: Seq<char>)
    requires
        v.default_consistent(),
        v.wf(),
        v.contains_name(name),
    ensures
        spec_remove(v, name).default_consistent(),
{
    let w = spec_remove(v, name);
    lemma_find_in(v.pairs, name);
    let i = find_in(v.pairs, name)->0 as int;
    if v.default_name == Some(name) {
        if w.pairs.len() > 0 {
            lemma_contains_iff(w, w.pairs[0].0);
        }
    } else {
        let d = v.default_name->0;
        lemma_find_in(v.pairs, d);
        let j = find_in(v.pairs, d)->0 as int;
        assert(d != name);
        assert(j != i);
        lemma_contains_iff(w, d);
        if j < i {
            assert(w.pairs[j].0 == d);
        } else {
            assert(w.pairs[j - 1] == v.pairs[j]);
        }
    }
}

/// Resolution with an explicit identifier always succeeds: a known name
/// yields its stored address and any other identifier passes through
/// unchanged.
pub proof fn lemma_resolve_explicit(v: RegView, id: Seq<char>)
    ensures
        v.contains_name(id) ==> spec_resolve(v, Some(id)) == Some(v.addr_of(id)),
        !v.contains_name(id) ==> spec_resolve(v, Some(id)) == Some(id),
{
}

/// Resolution without an identifier fails with `NoDeviceSpecified` exactly
/// when no default is set or the default names no present device; in
/// particular it fails on an empty registry.
pub proof fn lemma_resolve_default(v: RegView)
    ensures
        spec_resolve(v, None) is None <==> (match v.default_name {
            Some(d) => !v.contains_name(d),
            None => true,
        }),
        v.pairs.len() == 0 ==> spec_resolve(v, None) is None,
{
    if v.pairs.len() == 0 {
        match v.default_name {
            Some(d) => {
                lemma_find_in(v.pairs, d);
            }
            None => {}
        }
    }
}

} // verus!
