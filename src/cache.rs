use vstd::prelude::*;
use vstd::multiset::Multiset;
use crate::lookup::is_md5sum;
use crate::configuration::{same_text, Configuration, ConfigurationError};

verus! {

broadcast use vstd::seq_lib::group_to_multiset_ensures;

/// Relies on lockfile::Lockfile only as an opaque guard: the lock file stays
/// while a value of it lives.
#[verifier::external_type_specification]
#[verifier::external_body]
pub struct ExLockfile(lockfile::Lockfile);

/// Relies on std::time::SystemTimeError only as an opaque value that errors
/// carry.
#[verifier::external_type_specification]
#[verifier::external_body]
pub struct ExSystemTimeError(std::time::SystemTimeError);

/// What went wrong in an operation of the cache.
#[derive(Debug)]
pub enum CacheError {
    ConfigurationError(ConfigurationError),
    CopyError(std::io::Error),
    LockError(std::io::Error),
    MakeSpaceError(std::io::Error),
    ScanError(std::io::Error),
    TimestampError(std::time::SystemTimeError),
    TouchError(std::io::Error),
}

/// The name of the lock marker in the cache root.
pub const LOCK_NAME: &'static str = "lock";

/// The suffix of an entry that is still being written.
pub const TEMPORARY_SUFFIX: &'static str = ".tmp";

/// `name` placed under the directory `root`, as `Path::join` does on Unix:
/// an absolute name stands alone, and a separator is added where `root`
/// does not end with one.
pub open spec fn join_path(root: Seq<char>, name: Seq<char>) -> Seq<char> {
    if name.len() > 0 && name[0] == '/' {
        name
    } else if root.len() == 0 || root.last() == '/' {
        root + name
    } else {
        root + seq!['/'] + name
    }
}

/// Places `name` under the directory `root`.
pub fn join_path_exec(root: &str, name: &str) -> (r: String)
    ensures
        r@ == join_path(root@, name@),
{
    let root_len = root.unicode_len();
    if name.unicode_len() > 0 && name.get_char(0) == '/' {
        String::from_str(name)
    } else if root_len == 0 || root.get_char(root_len - 1) == '/' {
        String::from_str(root).concat(name)
    } else {
        let r = String::from_str(root).concat("/").concat(name);
        proof {
            reveal_strlit("/");
            assert(r@ =~= root@ + seq!['/'] + name@);
        }
        r
    }
}

/// The path at which the entry for `key` is committed.
pub open spec fn permanent_path(root: Seq<char>, key: Seq<char>) -> Seq<char> {
    join_path(root, key)
}

/// The path at which the entry for `key` is written before it is committed.
pub open spec fn temporary_path_of(root: Seq<char>, key: Seq<char>) -> Seq<char> {
    join_path(root, key + TEMPORARY_SUFFIX@)
}

/// With checksums for keys, the paths of the cache root never meet: an entry
/// being written is never at the path of a committed entry, and neither is
/// at the path of the lock marker.
pub proof fn lemma_cache_paths_are_apart(root: Seq<char>, written: Seq<char>, committed: Seq<char>)
    requires
        is_md5sum(written),
        is_md5sum(committed),
    ensures
        temporary_path_of(root, written) != permanent_path(root, committed),
        temporary_path_of(root, written) != join_path(root, LOCK_NAME@),
        permanent_path(root, committed) != join_path(root, LOCK_NAME@),
{
    reveal_strlit(".tmp");
    reveal_strlit("lock");
    let t = written + TEMPORARY_SUFFIX@;
    assert(TEMPORARY_SUFFIX@ == ".tmp"@);
    assert(LOCK_NAME@ == "lock"@);
    assert(t.len() == 36);
    assert(t[0] == written[0]);
    assert(join_path(root, t).len() == join_path(root, committed).len() + 4);
    assert(join_path(root, t).len() == join_path(root, LOCK_NAME@).len() + 32);
    assert(!(committed[0] == '/'));
    assert(!(t[0] == '/'));
    assert(!("lock"@[0] == '/'));
}

/// Whether a file of the cache root with this name is a cache entry: every
/// file but the lock marker is.
pub open spec fn is_entry_name(name: Seq<char>) -> bool {
    name != LOCK_NAME@
}

/// Tells whether a file found in the cache root takes part in eviction.
pub fn is_entry_file_name(name: &str) -> (r: bool)
    ensures
        r == is_entry_name(name@),
{
    !same_text(name, LOCK_NAME)
}

/// The access and modification times a file gets when it is touched at
/// `now`: the access time becomes `now`, the modification time stays.
pub fn file_times_after_touch(now: u64, times: (u64, u64)) -> (r: (u64, u64))
    ensures
        r.0 == now,
        r.1 == times.1,
{
    (now, times.1)
}

/// An open cache: its settings, and the lock that keeps other processes
/// out of its root for as long as the handle lives.
pub struct Cache {
    conf: Configuration,
    #[allow(dead_code)]
    lock: lockfile::Lockfile,
}

/// What a cache handle is bound to: its root directory and its budget.
pub struct CacheView {
    pub root: Seq<char>,
    pub budget: u64,
}

impl View for Cache {
    type V = CacheView;

    closed spec fn view(&self) -> CacheView {
        CacheView { root: self.conf.cache_path@, budget: self.conf.cache_size_limit_in_bytes }
    }
}

impl Cache {
    /// The path of the lock marker of a cache with these settings.
    pub fn lock_path(conf: &Configuration) -> (r: String)
        ensures
            r@ == join_path(conf.cache_path@, LOCK_NAME@),
    {
        join_path_exec(conf.cache_path.as_str(), LOCK_NAME)
    }

    /// Binds the settings to the lock taken over their root.
    pub fn open_with_lock(conf: Configuration, lock: lockfile::Lockfile) -> (r: Cache)
        ensures
            r@.root == conf.cache_path@,
            r@.budget == conf.cache_size_limit_in_bytes,
    {
        Cache { conf, lock }
    }

    /// The root directory of the cache.
    pub fn root(&self) -> (r: &str)
        ensures
            r@ == self@.root,
    {
        self.conf.cache_path.as_str()
    }

    /// The most bytes the cache may hold.
    pub fn budget(&self) -> (r: u64)
        ensures
            r == self@.budget,
    {
        self.conf.cache_size_limit_in_bytes
    }

    /// Where the committed entry for `md5sum` is.
    pub fn path(&self, md5sum: &str) -> (r: String)
        ensures
            r@ == permanent_path(self@.root, md5sum@),
    {
        join_path_exec(self.root(), md5sum)
    }

    /// Where the entry for `md5sum` is written before it is committed.
    pub fn temporary_path(&self, md5sum: &str) -> (r: String)
        ensures
            r@ == temporary_path_of(self@.root, md5sum@),
    {
        let name = String::from_str(md5sum).concat(TEMPORARY_SUFFIX);
        join_path_exec(self.root(), name.as_str())
    }

    /// Whether an object of `num_bytes` can be held at all: only one that
    /// fits the budget can.
    pub fn can_hold(&self, num_bytes: u64) -> (r: bool)
        ensures
            r == (num_bytes <= self@.budget),
    {
        num_bytes <= self.conf.cache_size_limit_in_bytes
    }

    /// Decides the eviction that makes room for `num_bytes` in this cache,
    /// from the entries of a scan in access order.
    pub fn plan_make_space(&self, num_bytes: u64, ordered: &Vec<CacheEntry>) -> (plan: EvictionPlan)
        ensures
            is_eviction_plan(self@.budget, num_bytes, ordered@, plan),
    {
        plan_eviction(self.budget(), num_bytes, ordered)
    }
}

/// One file found in the cache root: when it was last read, where it is and
/// how many bytes it holds.
pub struct CacheEntry {
    pub atime: u64,
    pub path: String,
    pub size: u64,
}

/// The bytes held by all entries of `s`.
pub open spec fn total_size(s: Seq<CacheEntry>) -> int
    decreases s.len(),
{
    if s.len() == 0 {
        0
    } else {
        total_size(s.drop_last()) + s.last().size
    }
}

/// Entries are ordered oldest access first.
pub open spec fn is_sorted_by_atime(s: Seq<CacheEntry>) -> bool {
    forall|i: int, j: int| 0 <= i < j < s.len() ==> #[trigger] s[i].atime <= #[trigger] s[j].atime
}

/// `ordered` holds exactly the entries of `entries`, each as often, oldest
/// access first.
pub open spec fn is_access_order(entries: Seq<CacheEntry>, ordered: Seq<CacheEntry>) -> bool {
    &&& ordered.to_multiset() == entries.to_multiset()
    &&& ordered.len() == entries.len()
    &&& total_size(ordered) == total_size(entries)
    &&& is_sorted_by_atime(ordered)
}

proof fn lemma_total_size_insert(s: Seq<CacheEntry>, i: int, e: CacheEntry)
    requires
        0 <= i <= s.len(),
    ensures
        total_size(s.insert(i, e)) == total_size(s) + e.size,
    decreases s.len(),
{
    if i == s.len() {
        assert(s.insert(i, e).drop_last() =~= s);
    } else {
        lemma_total_size_insert(s.drop_last(), i, e);
        assert(s.insert(i, e).drop_last() =~= s.drop_last().insert(i, e));
    }
}

/// Orders the entries of a scan oldest access first. No entry is dropped:
/// entries that share an access time all stay, in the order of the scan.
pub fn order_by_access_time(entries: Vec<CacheEntry>) -> (ordered: Vec<CacheEntry>)
    ensures
        is_access_order(entries@, ordered@),
{
    let mut rest = entries;
    let mut ordered: Vec<CacheEntry> = Vec::new();
    while rest.len() > 0
        invariant
            rest@.to_multiset().add(ordered@.to_multiset()) == entries@.to_multiset(),
            rest@.len() + ordered@.len() == entries@.len(),
            total_size(rest@) + total_size(ordered@) == total_size(entries@),
            is_sorted_by_atime(ordered@),
        decreases rest@.len(),
    {
        let ghost before = rest@;
        let e = rest.pop().unwrap();
        proof {
            assert(before =~= rest@.push(e));
            assert(rest@.push(e).drop_last() =~= rest@);
        }
        let mut pos: usize = 0;
        while pos < ordered.len() && ordered[pos].atime < e.atime
            invariant
                pos <= ordered@.len(),
                forall|k: int| 0 <= k < pos ==> #[trigger] ordered@[k].atime < e.atime,
            decreases ordered@.len() - pos,
        {
            pos = pos + 1;
        }
        let ghost prev = ordered@;
        proof {
            lemma_total_size_insert(prev, pos as int, e);
            assert(prev.insert(pos as int, e).to_multiset() == prev.to_multiset().insert(e));
        }
        ordered.insert(pos, e);
        proof {
            assert forall|i: int, j: int| 0 <= i < j < ordered@.len() implies
                #[trigger] ordered@[i].atime <= #[trigger] ordered@[j].atime by {
                if j < pos {
                } else if j == pos {
                } else if i < pos {
                    assert(ordered@[j] == prev[j - 1]);
                    if pos < prev.len() {
                        assert(prev[pos as int].atime >= e.atime);
                        assert(prev[pos as int].atime <= prev[j - 1].atime);
                    }
                } else if i == pos {
                    assert(prev[pos as int].atime >= e.atime);
                    if pos as int != j - 1 {
                        assert(prev[pos as int].atime <= prev[j - 1].atime);
                    }
                } else {
                    assert(ordered@[i] == prev[i - 1]);
                    assert(ordered@[j] == prev[j - 1]);
                }
            }
            assert(before.to_multiset() == rest@.to_multiset().insert(e));
            assert(rest@.to_multiset().add(ordered@.to_multiset()) =~= before.to_multiset().add(
                prev.to_multiset(),
            ));
        }
    }
    proof {
        assert(rest@ =~= Seq::<CacheEntry>::empty());
        assert(rest@.to_multiset() =~= Multiset::<CacheEntry>::empty());
        assert(rest@.to_multiset().add(ordered@.to_multiset()) =~= ordered@.to_multiset());
    }
    ordered
}

/// How far eviction goes: the number of entries to delete from the front of
/// the access order, and whether that frees the requested bytes.
pub struct EvictionPlan {
    pub num_to_delete: usize,
    pub made_space: bool,
}

/// `plan` deletes the fewest oldest entries of `ordered` whose sizes add up
/// to `required`, none at all where nothing needs freeing; where no prefix
/// adds up to `required` it deletes them all and reports failure. A request
/// larger than the budget deletes nothing and fails.
pub open spec fn is_eviction_plan(
    budget: u64,
    required: u64,
    ordered: Seq<CacheEntry>,
    plan: EvictionPlan,
) -> bool {
    let k = plan.num_to_delete as int;
    if required > budget {
        k == 0 && !plan.made_space
    } else if plan.made_space {
        &&& 0 <= k <= ordered.len()
        &&& total_size(ordered.take(k)) >= required
        &&& forall|j: int| 0 <= j < k ==> #[trigger] total_size(ordered.take(j)) < required
    } else {
        &&& k == ordered.len()
        &&& forall|j: int| 0 <= j <= k ==> #[trigger] total_size(ordered.take(j)) < required
    }
}

/// Decides which entries eviction deletes to make room for `required` bytes
/// under `budget`. Entries go oldest first; eviction stops as soon as the
/// bytes freed reach `required`, and a request of no bytes deletes nothing.
pub fn plan_eviction(budget: u64, required: u64, ordered: &Vec<CacheEntry>) -> (plan: EvictionPlan)
    ensures
        is_eviction_plan(budget, required, ordered@, plan),
{
    if required > budget {
        return EvictionPlan { num_to_delete: 0, made_space: false };
    }
    if required == 0 {
        return EvictionPlan { num_to_delete: 0, made_space: true };
    }
    proof {
        assert(ordered@.take(0) =~= Seq::<CacheEntry>::empty());
    }
    let mut freed: u64 = 0;
    let mut i: usize = 0;
    while i < ordered.len()
        invariant
            required <= budget,
            i <= ordered@.len(),
            freed as int == if total_size(ordered@.take(i as int)) > u64::MAX {
                u64::MAX as int
            } else {
                total_size(ordered@.take(i as int))
            },
            forall|j: int| 0 <= j <= i ==> #[trigger] total_size(ordered@.take(j)) < required,
        decreases ordered@.len() - i,
    {
        let size = ordered[i].size;
        proof {
            assert(ordered@.take(i + 1).drop_last() =~= ordered@.take(i as int));
            assert(total_size(ordered@.take(i + 1)) == total_size(ordered@.take(i as int))
                + size);
        }
        if freed > u64::MAX - size {
            freed = u64::MAX;
        } else {
            freed = freed + size;
        }
        i = i + 1;
        if freed >= required {
            return EvictionPlan { num_to_delete: i, made_space: true };
        }
    }
    EvictionPlan { num_to_delete: i, made_space: false }
}

/// A request above the budget deletes nothing and fails.
pub proof fn lemma_eviction_over_budget_deletes_nothing(
    budget: u64,
    required: u64,
    ordered: Seq<CacheEntry>,
    plan: EvictionPlan,
)
    requires
        is_eviction_plan(budget, required, ordered, plan),
        required > budget,
    ensures
        !plan.made_space,
        plan.num_to_delete == 0,
{
}

/// When a request fits the budget and the scanned entries hold at least
/// that many bytes, eviction succeeds. The entries it deletes hold at
/// least the requested bytes, none of them was read later than an entry
/// that stays, and deleting one fewer would not have been enough.
pub proof fn lemma_eviction_frees_oldest(
    budget: u64,
    required: u64,
    entries: Seq<CacheEntry>,
    ordered: Seq<CacheEntry>,
    plan: EvictionPlan,
)
    requires
        is_access_order(entries, ordered),
        is_eviction_plan(budget, required, ordered, plan),
        required <= budget,
        total_size(entries) >= required,
    ensures
        plan.made_space,
        total_size(ordered.take(plan.num_to_delete as int)) >= required,
        plan.num_to_delete > 0 ==> total_size(ordered.take(plan.num_to_delete - 1)) < required,
        forall|i: int, j: int|
            0 <= i < plan.num_to_delete <= j < ordered.len() ==> #[trigger] ordered[i].atime
                <= #[trigger] ordered[j].atime,
{
    let n = ordered.len() as int;
    assert(ordered.take(n) =~= ordered);
    if !plan.made_space {
        assert(total_size(ordered.take(n)) < required);
    }
    let k = plan.num_to_delete as int;
    if k > 0 {
        assert(total_size(ordered.take(k - 1)) < required);
    }
}

} // verus!
