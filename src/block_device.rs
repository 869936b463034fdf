//! The block devices of the machine and the holder relation between them
//! (a partition on a disk, a mapper device on a partition).

use vstd::prelude::*;

use crate::device_id::{parse_device_id, DeviceId};
use crate::text::{chars_of, string_of, trim, trim_chars};

verus! {

/// Depth beyond which the device tree is not walked further.
pub const MAX_DEPTH: usize = 15;

/// A block device: a device of the device tree that has a device id.
#[derive(Debug, Clone)]
pub struct BlockDevice {
    pub name: String,
    /// a name for a /dev/mapper/ device
    pub dm_name: Option<String>,
    pub id: DeviceId,
    pub parent: Option<DeviceId>,
}

/// The block devices found, in discovery order, at most one per device id.
#[derive(Debug, Clone)]
pub struct BlockDeviceList {
    list: Vec<BlockDevice>,
}

impl View for BlockDeviceList {
    type V = Seq<BlockDevice>;

    closed spec fn view(&self) -> Seq<BlockDevice> {
        self.list@
    }
}

/// Index of the first device that satisfies `p`, or the number of devices.
pub open spec fn first_index(s: Seq<BlockDevice>, p: spec_fn(BlockDevice) -> bool) -> int
    decreases s.len(),
{
    if s.len() == 0 {
        0
    } else if p(s[0]) {
        0
    } else {
        1 + first_index(s.drop_first(), p)
    }
}

pub open spec fn has_id(id: DeviceId) -> spec_fn(BlockDevice) -> bool {
    |d: BlockDevice| d.id == id
}

pub open spec fn has_dm_name(dm: Seq<char>) -> spec_fn(BlockDevice) -> bool {
    |d: BlockDevice| d.dm_name is Some && d.dm_name->0@ == dm
}

pub open spec fn has_leaf_name(name: Seq<char>) -> spec_fn(BlockDevice) -> bool {
    |d: BlockDevice| d.name@ == name
}

/// A device with no parent, or whose parent is itself, is the top of its chain.
pub open spec fn is_top(d: BlockDevice) -> bool {
    d.parent is None || d.parent == Some(d.id)
}

/// The top reached from index `i` by following at most `fuel` parent links,
/// each resolved by id.
pub open spec fn climb(s: Seq<BlockDevice>, i: int, fuel: nat) -> Option<int>
    decreases fuel,
{
    if !(0 <= i < s.len()) {
        None
    } else if is_top(s[i]) {
        Some(i)
    } else if fuel == 0 {
        None
    } else {
        climb(s, first_index(s, has_id(s[i].parent->0)), (fuel - 1) as nat)
    }
}

/// The device where a search for the top starts: found by id, else by mapper
/// name, else by leaf name.
pub open spec fn start_index(
    s: Seq<BlockDevice>,
    id: DeviceId,
    dm_name: Option<Seq<char>>,
    name: Option<Seq<char>>,
) -> int {
    let a = first_index(s, has_id(id));
    let b = if dm_name is Some {
        first_index(s, has_dm_name(dm_name->0))
    } else {
        s.len() as int
    };
    if a < s.len() {
        a
    } else if b < s.len() {
        b
    } else if name is Some {
        first_index(s, has_leaf_name(name->0))
    } else {
        s.len() as int
    }
}

/// The index of the top device for a search, if there is one.
pub open spec fn top_index(
    s: Seq<BlockDevice>,
    id: DeviceId,
    dm_name: Option<Seq<char>>,
    name: Option<Seq<char>>,
) -> Option<int> {
    climb(s, start_index(s, id, dm_name, name), s.len())
}

pub open spec fn opt_view(o: Option<&str>) -> Option<Seq<char>> {
    match o {
        Some(s) => Some(s@),
        None => None,
    }
}

proof fn lemma_first_index(s: Seq<BlockDevice>, p: spec_fn(BlockDevice) -> bool, j: int)
    requires
        0 <= j <= s.len(),
        forall|k: int| 0 <= k < j ==> !p(s[k]),
        j == s.len() || p(s[j]),
    ensures
        first_index(s, p) == j,
    decreases s.len(),
{
    if s.len() > 0 && !p(s[0]) {
        lemma_first_index(s.drop_first(), p, j - 1);
    }
}

impl BlockDeviceList {
    /// Whether no two devices share an id.
    pub open spec fn wf(&self) -> bool {
        forall|i: int, j: int|
            0 <= i < j < self@.len() ==> (#[trigger] self@[i]).id != (#[trigger] self@[j]).id
    }

    pub fn new() -> (r: Self)
        ensures
            r@ == Seq::<BlockDevice>::empty(),
            r.wf(),
    {
        BlockDeviceList { list: Vec::new() }
    }

    fn index_by_id(&self, id: DeviceId) -> (r: usize)
        ensures
            r == first_index(self@, has_id(id)),
            r <= self@.len(),
    {
        let mut i: usize = 0;
        while i < self.list.len() && self.list[i].id != id
            invariant
                i <= self.list.len(),
                forall|k: int| 0 <= k < i ==> !has_id(id)(self.list@[k]),
            decreases self.list.len() - i,
        {
            i += 1;
        }
        proof {
            lemma_first_index(self@, has_id(id), i as int);
        }
        i
    }

    fn index_by_dm_name(&self, dm_name: &String) -> (r: usize)
        ensures
            r == first_index(self@, has_dm_name(dm_name@)),
            r <= self@.len(),
    {
        let mut i: usize = 0;
        while i < self.list.len()
            invariant
                i <= self.list.len(),
                forall|k: int| 0 <= k < i ==> !has_dm_name(dm_name@)(self.list@[k]),
            decreases self.list.len() - i,
        {
            let found = match &self.list[i].dm_name {
                Some(n) => *n == *dm_name,
                None => false,
            };
            if found {
                assert(has_dm_name(dm_name@)(self.list@[i as int]));
                proof {
                    lemma_first_index(self@, has_dm_name(dm_name@), i as int);
                }
                return i;
            }
            i += 1;
        }
        proof {
            lemma_first_index(self@, has_dm_name(dm_name@), i as int);
        }
        i
    }

    fn index_by_name(&self, name: &String) -> (r: usize)
        ensures
            r == first_index(self@, has_leaf_name(name@)),
            r <= self@.len(),
    {
        let mut i: usize = 0;
        while i < self.list.len() && self.list[i].name != *name
            invariant
                i <= self.list.len(),
                forall|k: int| 0 <= k < i ==> !has_leaf_name(name@)(self.list@[k]),
            decreases self.list.len() - i,
        {
            i += 1;
        }
        proof {
            lemma_first_index(self@, has_leaf_name(name@), i as int);
        }
        i
    }

    /// The first device with this id.
    pub fn find_by_id(&self, id: DeviceId) -> (r: Option<&BlockDevice>)
        ensures
            r is Some <==> first_index(self@, has_id(id)) < self@.len(),
            r is Some ==> *r->0 == self@[first_index(self@, has_id(id))],
    {
        let i = self.index_by_id(id);
        if i < self.list.len() {
            Some(&self.list[i])
        } else {
            None
        }
    }

    /// The first device with this device-mapper name.
    pub fn find_by_dm_name(&self, dm_name: &str) -> (r: Option<&BlockDevice>)
        ensures
            r is Some <==> first_index(self@, has_dm_name(dm_name@)) < self@.len(),
            r is Some ==> *r->0 == self@[first_index(self@, has_dm_name(dm_name@))],
    {
        let i = self.index_by_dm_name(&dm_name.to_owned());
        if i < self.list.len() {
            Some(&self.list[i])
        } else {
            None
        }
    }

    /// The first device with this name.
    pub fn find_by_name(&self, name: &str) -> (r: Option<&BlockDevice>)
        ensures
            r is Some <==> first_index(self@, has_leaf_name(name@)) < self@.len(),
            r is Some ==> *r->0 == self@[first_index(self@, has_leaf_name(name@))],
    {
        let i = self.index_by_name(&name.to_owned());
        if i < self.list.len() {
            Some(&self.list[i])
        } else {
            None
        }
    }

    /// The top-most ancestor of a device. The device is found by id, else by
    /// mapper name, else by leaf name; parent links are then followed by id
    /// until a device without parent (or its own parent) is reached. No more
    /// links are followed than there are devices, so a cycle ends the search
    /// with nothing found.
    pub fn find_top(&self, id: DeviceId, dm_name: Option<&str>, name: Option<&str>) -> (r: Option<
        &BlockDevice,
    >)
        ensures
            r is Some <==> top_index(self@, id, opt_view(dm_name), opt_view(name)) is Some,
            r is Some ==> *r->0 == self@[top_index(
                self@,
                id,
                opt_view(dm_name),
                opt_view(name),
            )->0],
    {
        let n = self.list.len();
        let mut cur = self.index_by_id(id);
        if cur == n {
            if let Some(dm) = dm_name {
                cur = self.index_by_dm_name(&dm.to_owned());
            }
        }
        if cur == n {
            if let Some(nm) = name {
                cur = self.index_by_name(&nm.to_owned());
            }
        }
        assert(cur == start_index(self@, id, opt_view(dm_name), opt_view(name)));
        let ghost goal = top_index(self@, id, opt_view(dm_name), opt_view(name));
        let mut steps: usize = 0;
        while cur < n
            invariant
                n == self@.len(),
                steps <= n,
                cur <= n,
                goal == top_index(self@, id, opt_view(dm_name), opt_view(name)),
                goal == climb(self@, cur as int, (n - steps) as nat),
            decreases n - steps,
        {
            let d = &self.list[cur];
            let top = match d.parent {
                None => true,
                Some(p) => p == d.id,
            };
            if top {
                assert(is_top(self@[cur as int]));
                return Some(d);
            }
            if steps == n {
                return None;
            }
            cur = self.index_by_id(d.parent.unwrap());
            steps += 1;
        }
        None
    }

    /// Adds a device unless one with its id is already listed.
    pub fn insert(&mut self, device: BlockDevice) -> (r: bool)
        requires
            old(self).wf(),
        ensures
            final(self).wf(),
            first_index(old(self)@, has_id(device.id)) <= old(self)@.len(),
            r == (first_index(old(self)@, has_id(device.id)) == old(self)@.len()),
            r ==> final(self)@ == old(self)@.push(device),
            !r ==> final(self)@ == old(self)@,
    {
        let i = self.index_by_id(device.id);
        if i < self.list.len() {
            return false;
        }
        proof {
            assert forall|k: int| 0 <= k < self@.len() implies self@[k].id != device.id by {
                if self@[k].id == device.id {
                    assert(has_id(device.id)(self@[k]));
                    lemma_first_index_min(self@, has_id(device.id), k);
                }
            }
        }
        self.list.push(device);
        true
    }

    /// One step of the walk of the device tree, for a child entry met under
    /// the device `parent` (none at the root) at the given depth. `dev` and
    /// `dm_name` are the contents of the entry's `dev` and `dm/name`
    /// attributes, when they could be read. An entry whose `dev` is not a
    /// device id, or whose id is already listed, is skipped. Otherwise it is
    /// recorded, and its id is returned when its own children must be walked:
    /// when `depth` does not exceed the bound.
    pub fn record_child(
        &mut self,
        parent: Option<DeviceId>,
        name: String,
        dev: Option<&str>,
        dm_name: Option<&str>,
        depth: usize,
    ) -> (r: Option<DeviceId>)
        requires
            old(self).wf(),
        ensures
            final(self).wf(),
            ({
                let id = match dev {
                    Some(s) => parse_device_id(trim(s@)),
                    None => None,
                };
                if id is None || first_index(old(self)@, has_id(id->0)) < old(self)@.len() {
                    final(self)@ == old(self)@ && r is None
                } else {
                    &&& final(self)@.len() == old(self)@.len() + 1
                    &&& final(self)@.drop_last() == old(self)@
                    &&& final(self)@.last().id == id->0
                    &&& final(self)@.last().name == name
                    &&& final(self)@.last().parent == parent
                    &&& (final(self)@.last().dm_name is Some <==> dm_name is Some)
                    &&& (dm_name is Some ==> final(self)@.last().dm_name->0@ == trim(
                        dm_name->0@,
                    ))
                    &&& r == if depth > MAX_DEPTH {
                        None
                    } else {
                        Some(id->0)
                    }
                }
            }),
    {
        let id = match dev {
            Some(s) => {
                let t = trim_chars(&chars_of(s));
                DeviceId::from_chars(&t)
            },
            None => None,
        };
        let id = match id {
            Some(id) => id,
            None => return None,
        };
        let dm = match dm_name {
            Some(s) => {
                let t = trim_chars(&chars_of(s));
                assert(t@.subrange(0, t@.len() as int) == t@);
                Some(string_of(&t, 0, t.len()))
            },
            None => None,
        };
        let ghost before = self@;
        let added = self.insert(BlockDevice { name, dm_name: dm, id, parent });
        if !added {
            return None;
        }
        assert(self@.drop_last() == before);
        if depth > MAX_DEPTH {
            None
        } else {
            Some(id)
        }
    }
}

proof fn lemma_first_index_min(s: Seq<BlockDevice>, p: spec_fn(BlockDevice) -> bool, k: int)
    requires
        0 <= k < s.len(),
        p(s[k]),
    ensures
        first_index(s, p) <= k,
    decreases s.len(),
{
    if !p(s[0]) {
        lemma_first_index_min(s.drop_first(), p, k - 1);
    }
}

/// A device that is its own parent is the top of its own chain: a search
/// that starts on it ends on it at once.
pub proof fn lemma_self_parent_is_top(
    list: BlockDeviceList,
    i: int,
    dm_name: Option<Seq<char>>,
    name: Option<Seq<char>>,
)
    requires
        list.wf(),
        0 <= i < list@.len(),
        list@[i].parent == Some(list@[i].id),
    ensures
        top_index(list@, list@[i].id, dm_name, name) == Some(i),
{
    let s = list@;
    assert forall|k: int| 0 <= k < i implies !has_id(s[i].id)(s[k]) by {
        assert(s[k].id != s[i].id);
    }
    lemma_first_index(s, has_id(s[i].id), i);
}

/// The index one parent link above `i`.
pub open spec fn step_up(s: Seq<BlockDevice>, i: int) -> int {
    first_index(s, has_id(s[i].parent->0))
}

/// The index reached from `i` after `k` parent links.
pub open spec fn path_up(s: Seq<BlockDevice>, i: int, k: nat) -> int
    decreases k,
{
    if k == 0 {
        i
    } else {
        step_up(s, path_up(s, i, (k - 1) as nat))
    }
}

/// The first `k` indices from `i` are devices that are not tops, and the
/// next one is the top `t`.
pub open spec fn reaches_top_in(s: Seq<BlockDevice>, i: int, k: nat, t: int) -> bool {
    &&& path_up(s, i, k) == t
    &&& 0 <= t < s.len()
    &&& is_top(s[t])
    &&& forall|m: nat|
        m < k ==> 0 <= #[trigger] path_up(s, i, m) < s.len() && !is_top(s[path_up(s, i, m)])
}

proof fn lemma_path_shift(s: Seq<BlockDevice>, i: int, k: nat)
    ensures
        path_up(s, i, k + 1) == path_up(s, step_up(s, i), k),
    decreases k,
{
    assert(path_up(s, i, k + 1) == step_up(s, path_up(s, i, k)));
    if k > 0 {
        lemma_path_shift(s, i, (k - 1) as nat);
        assert(path_up(s, step_up(s, i), k) == step_up(s, path_up(s, step_up(s, i), (k - 1) as nat)));
    } else {
        assert(path_up(s, i, 1) == step_up(s, path_up(s, i, 0)));
    }
}

proof fn lemma_climb_reaches(s: Seq<BlockDevice>, i: int, f: nat)
    requires
        climb(s, i, f) is Some,
    ensures
        exists|k: nat| k <= f && reaches_top_in(s, i, k, climb(s, i, f)->0),
    decreases f,
{
    let t = climb(s, i, f)->0;
    if is_top(s[i]) {
        assert(reaches_top_in(s, i, 0, t));
    } else {
        let j = step_up(s, i);
        lemma_climb_reaches(s, j, (f - 1) as nat);
        let k = choose|k: nat| k <= (f - 1) as nat && reaches_top_in(s, j, k, t);
        lemma_path_shift(s, i, k);
        assert forall|m: nat| m < k + 1 implies 0 <= #[trigger] path_up(s, i, m) < s.len()
            && !is_top(s[path_up(s, i, m)]) by {
            if m > 0 {
                lemma_path_shift(s, i, (m - 1) as nat);
                assert(path_up(s, j, (m - 1) as nat) == path_up(s, i, m));
            }
        }
        assert(reaches_top_in(s, i, k + 1, t));
    }
}

proof fn lemma_reaches_climb(s: Seq<BlockDevice>, i: int, k: nat, t: int, f: nat)
    requires
        reaches_top_in(s, i, k, t),
        k <= f,
    ensures
        climb(s, i, f) == Some(t),
    decreases k,
{
    if k > 0 {
        assert(0 <= path_up(s, i, 0) < s.len() && !is_top(s[path_up(s, i, 0)]));
        let j = step_up(s, i);
        lemma_path_shift(s, i, (k - 1) as nat);
        assert forall|m: nat| m < (k - 1) as nat implies 0 <= #[trigger] path_up(s, j, m) < s.len()
            && !is_top(s[path_up(s, j, m)]) by {
            lemma_path_shift(s, i, m);
            assert(path_up(s, i, m + 1) == path_up(s, j, m));
        }
        lemma_reaches_climb(s, j, (k - 1) as nat, t, (f - 1) as nat);
    }
}

proof fn lemma_pigeonhole(f: spec_fn(int) -> int, n: int)
    requires
        n >= 0,
        forall|k: int| 0 <= k <= n ==> 0 <= #[trigger] f(k) < n,
    ensures
        exists|a: int, b: int| 0 <= a < b <= n && #[trigger] f(a) == #[trigger] f(b),
    decreases n,
{
    if n == 0 {
        assert(0 <= 0 <= n);
        assert(0 <= f(0) < n);
    } else if exists|a: int| 0 <= a < n && #[trigger] f(a) == f(n) {
        let a = choose|a: int| 0 <= a < n && #[trigger] f(a) == f(n);
        assert(f(a) == f(n));
    } else {
        let g = |k: int| if f(k) == n - 1 { f(n) } else { f(k) };
        assert forall|k: int| 0 <= k <= n - 1 implies 0 <= #[trigger] g(k) < n - 1 by {
            assert(f(k) != f(n));
            assert(0 <= f(k) < n);
            assert(0 <= f(n) < n);
        }
        lemma_pigeonhole(g, n - 1);
        let (a, b) = choose|a: int, b: int| 0 <= a < b <= n - 1 && #[trigger] g(a) == #[trigger] g(b);
        assert(f(a) != f(n) && f(b) != f(n));
        assert(f(a) == f(b));
    }
}

proof fn lemma_path_repeat(s: Seq<BlockDevice>, i: int, a: nat, b: nat, m: nat)
    requires
        path_up(s, i, a) == path_up(s, i, b),
    ensures
        path_up(s, i, a + m) == path_up(s, i, b + m),
    decreases m,
{
    if m > 0 {
        lemma_path_repeat(s, i, a, b, (m - 1) as nat);
        assert(path_up(s, i, a + m) == step_up(s, path_up(s, i, (a + m - 1) as nat)));
        assert(path_up(s, i, b + m) == step_up(s, path_up(s, i, (b + m - 1) as nat)));
    }
}

proof fn lemma_reach_is_short(s: Seq<BlockDevice>, i: int, k: nat, t: int)
    requires
        reaches_top_in(s, i, k, t),
    ensures
        k < s.len(),
{
    if k >= s.len() {
        let n = s.len() as int;
        let f = |m: int| path_up(s, i, m as nat);
        assert forall|m: int| 0 <= m <= n implies 0 <= #[trigger] f(m) < n by {
            if (m as nat) < k {
                assert(0 <= path_up(s, i, m as nat) < s.len());
            }
        }
        lemma_pigeonhole(f, n);
        let (a, b) = choose|a: int, b: int| 0 <= a < b <= n && #[trigger] f(a) == #[trigger] f(b);
        let m = (k - b) as nat;
        lemma_path_repeat(s, i, a as nat, b as nat, m);
        assert(path_up(s, i, (a + m) as nat) == t);
        let c = (a + m) as nat;
        assert(c < k);
        assert(!is_top(s[path_up(s, i, c)]));
    }
}

/// Following parent links never takes more steps than there are devices:
/// whenever a top is reached from a device in some number of steps, the
/// bounded search that `find_top` makes from it reaches the same top.
pub proof fn lemma_climb_bound_is_exact(s: Seq<BlockDevice>, i: int, f: nat)
    requires
        climb(s, i, f) is Some,
    ensures
        climb(s, i, s.len()) == climb(s, i, f),
{
    lemma_climb_reaches(s, i, f);
    let t = climb(s, i, f)->0;
    let k = choose|k: nat| k <= f && reaches_top_in(s, i, k, t);
    lemma_reach_is_short(s, i, k, t);
    lemma_reaches_climb(s, i, k, t, s.len());
}

} // verus!
