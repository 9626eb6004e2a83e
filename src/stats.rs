use vstd::prelude::*;

verus! {

/// Three running totals: compressed bytes, uncompressed bytes, files.
pub struct Counters {
    pub compressed: nat,
    pub uncompressed: nat,
    pub files: nat,
}

impl Counters {
    pub open spec fn zero() -> Counters {
        Counters { compressed: 0, uncompressed: 0, files: 0 }
    }

    pub open spec fn plus(self, o: Counters) -> Counters {
        Counters {
            compressed: self.compressed + o.compressed,
            uncompressed: self.uncompressed + o.uncompressed,
            files: self.files + o.files,
        }
    }

    /// The totals after one more file of the given sizes.
    pub open spec fn record(self, uncompressed: nat, compressed: nat) -> Counters {
        Counters {
            compressed: self.compressed + compressed,
            uncompressed: self.uncompressed + uncompressed,
            files: self.files + 1,
        }
    }

    pub open spec fn le(self, o: Counters) -> bool {
        &&& self.compressed <= o.compressed
        &&& self.uncompressed <= o.uncompressed
        &&& self.files <= o.files
    }

    /// Byte totals fit in a `u64`, the file count in a `u32`.
    pub open spec fn fits(self) -> bool {
        &&& self.compressed <= u64::MAX
        &&& self.uncompressed <= u64::MAX
        &&& self.files <= u32::MAX
    }
}

/// The mathematical content of a `Statistics` value.
pub struct StatisticsModel {
    /// Files newly compressed during this run.
    pub this_run: Counters,
    /// Every file seen, whether freshly compressed or already up to date.
    pub cumulative: Counters,
}

impl StatisticsModel {
    pub open spec fn plus(self, o: StatisticsModel) -> StatisticsModel {
        StatisticsModel {
            this_run: self.this_run.plus(o.this_run),
            cumulative: self.cumulative.plus(o.cumulative),
        }
    }
}

/// Per-worker accumulator of sizes and counts.
pub struct Statistics {
    total_compressed: u64,
    total_compressed_now: u64,
    total_file_count: u32,
    total_file_count_now: u32,
    total_uncompressed: u64,
    total_uncompressed_now: u64,
}

impl View for Statistics {
    type V = StatisticsModel;

    closed spec fn view(&self) -> StatisticsModel {
        StatisticsModel {
            this_run: Counters {
                compressed: self.total_compressed_now as nat,
                uncompressed: self.total_uncompressed_now as nat,
                files: self.total_file_count_now as nat,
            },
            cumulative: Counters {
                compressed: self.total_compressed as nat,
                uncompressed: self.total_uncompressed as nat,
                files: self.total_file_count as nat,
            },
        }
    }
}

impl Statistics {
    /// This-run counters never exceed the cumulative ones.
    pub open spec fn wf(&self) -> bool {
        self@.this_run.le(self@.cumulative)
    }

    /// Recording one file of these sizes keeps every counter in range.
    pub open spec fn fits_update(&self, uncompressed_size: u64, compressed_size: u64) -> bool {
        self@.cumulative.record(uncompressed_size as nat, compressed_size as nat).fits()
    }

    /// Adding `other` field by field keeps every counter in range.
    pub open spec fn fits_merge(&self, other: &Statistics) -> bool {
        self@.cumulative.plus(other@.cumulative).fits()
    }

    pub fn new() -> (r: Statistics)
        ensures
            r.wf(),
            r@.this_run == Counters::zero(),
            r@.cumulative == Counters::zero(),
    {
        Statistics {
            total_compressed: 0,
            total_compressed_now: 0,
            total_file_count: 0,
            total_file_count_now: 0,
            total_uncompressed: 0,
            total_uncompressed_now: 0,
        }
    }

    pub fn can_update(&self, uncompressed_size: u64, compressed_size: u64) -> (r: bool)
        ensures
            r == self.fits_update(uncompressed_size, compressed_size),
    {
        self.total_compressed <= u64::MAX - compressed_size
            && self.total_uncompressed <= u64::MAX - uncompressed_size
            && self.total_file_count < u32::MAX
    }

    pub fn can_merge(&self, other: &Statistics) -> (r: bool)
        ensures
            r == self.fits_merge(other),
    {
        self.total_compressed <= u64::MAX - other.total_compressed
            && self.total_uncompressed <= u64::MAX - other.total_uncompressed
            && self.total_file_count <= u32::MAX - other.total_file_count
    }

    /// Records one file; a file that was already up to date counts only
    /// towards the cumulative totals.
    pub fn update(&mut self, uncompressed_size: u64, compressed_size: u64, newly_compressed: bool)
        requires
            old(self).wf(),
            old(self).fits_update(uncompressed_size, compressed_size),
        ensures
            final(self).wf(),
            final(self)@.cumulative == old(self)@.cumulative.record(
                uncompressed_size as nat,
                compressed_size as nat,
            ),
            final(self)@.this_run == if newly_compressed {
                old(self)@.this_run.record(uncompressed_size as nat, compressed_size as nat)
            } else {
                old(self)@.this_run
            },
    {
        if newly_compressed {
            self.total_compressed_now = self.total_compressed_now + compressed_size;
            self.total_file_count_now = self.total_file_count_now + 1;
            self.total_uncompressed_now = self.total_uncompressed_now + uncompressed_size;
        }
        self.total_compressed = self.total_compressed + compressed_size;
        self.total_file_count = self.total_file_count + 1;
        self.total_uncompressed = self.total_uncompressed + uncompressed_size;
    }

    /// Adds every counter of `other` into `self`.
    pub fn merge(&mut self, other: &Statistics)
        requires
            old(self).wf(),
            other.wf(),
            old(self).fits_merge(other),
        ensures
            final(self).wf(),
            final(self)@ == old(self)@.plus(other@),
    {
        self.total_compressed = self.total_compressed + other.total_compressed;
        self.total_compressed_now = self.total_compressed_now + other.total_compressed_now;
        self.total_file_count = self.total_file_count + other.total_file_count;
        self.total_file_count_now = self.total_file_count_now + other.total_file_count_now;
        self.total_uncompressed = self.total_uncompressed + other.total_uncompressed;
        self.total_uncompressed_now = self.total_uncompressed_now + other.total_uncompressed_now;
    }
    pub fn total_compressed(&self) -> (r: u64)
        ensures
            r == self@.cumulative.compressed,
    {
        self.total_compressed
    }

    pub fn total_compressed_now(&self) -> (r: u64)
        ensures
            r == self@.this_run.compressed,
    {
        self.total_compressed_now
    }

    pub fn total_uncompressed(&self) -> (r: u64)
        ensures
            r == self@.cumulative.uncompressed,
    {
        self.total_uncompressed
    }

    pub fn total_uncompressed_now(&self) -> (r: u64)
        ensures
            r == self@.this_run.uncompressed,
    {
        self.total_uncompressed_now
    }

    pub fn total_file_count(&self) -> (r: u32)
        ensures
            r == self@.cumulative.files,
    {
        self.total_file_count
    }

    pub fn total_file_count_now(&self) -> (r: u32)
        ensures
            r == self@.this_run.files,
    {
        self.total_file_count_now
    }

    /// Compressed size over uncompressed size across all files, in units of
    /// 1/10000 (rounded down); `None` when nothing was seen, where the ratio
    /// is undefined.
    pub fn savings_ratio(&self) -> (r: Option<u128>)
        ensures
            r == ratio_per_ten_thousand(self@.cumulative),
    {
        ratio_of(self.total_compressed, self.total_uncompressed)
    }

    /// The same ratio restricted to files compressed during this run.
    pub fn savings_ratio_now(&self) -> (r: Option<u128>)
        ensures
            r == ratio_per_ten_thousand(self@.this_run),
    {
        ratio_of(self.total_compressed_now, self.total_uncompressed_now)
    }
}

pub open spec fn ratio_per_ten_thousand(c: Counters) -> Option<u128> {
    if c.uncompressed == 0 {
        None
    } else {
        Some(((10000 * c.compressed) / c.uncompressed) as u128)
    }
}

fn ratio_of(compressed: u64, uncompressed: u64) -> (r: Option<u128>)
    ensures
        r == ratio_per_ten_thousand(
            Counters { compressed: compressed as nat, uncompressed: uncompressed as nat, files: 0 },
        ),
{
    if uncompressed == 0 {
        None
    } else {
        let scaled: u128 = 10000u128 * (compressed as u128);
        Some(scaled / (uncompressed as u128))
    }
}

impl StatisticsModel {
    pub open spec fn zero() -> StatisticsModel {
        StatisticsModel { this_run: Counters::zero(), cumulative: Counters::zero() }
    }
}

/// The models of a list of accumulators.
pub open spec fn models(parts: Seq<Statistics>) -> Seq<StatisticsModel> {
    parts.map_values(|p: Statistics| p@)
}

/// The field-by-field sum of a list of accumulators, in list order.
pub open spec fn total_of(parts: Seq<StatisticsModel>) -> StatisticsModel
    decreases parts.len(),
{
    if parts.len() == 0 {
        StatisticsModel::zero()
    } else {
        total_of(parts.drop_last()).plus(parts.last())
    }
}

proof fn lemma_total_of_prefix_le(parts: Seq<StatisticsModel>, k: int)
    requires
        0 <= k <= parts.len(),
    ensures
        total_of(parts.take(k)).cumulative.le(total_of(parts).cumulative),
    decreases parts.len() - k,
{
    if k < parts.len() {
        lemma_total_of_prefix_le(parts, k + 1);
        assert(parts.take(k + 1).drop_last() =~= parts.take(k));
    } else {
        assert(parts.take(k) =~= parts);
    }
}

/// Merges every worker's accumulator into one aggregate, or `None` where
/// the aggregate's counters would not fit.
pub fn aggregate(parts: &Vec<Statistics>) -> (r: Option<Statistics>)
    requires
        forall|i: int| 0 <= i < parts@.len() ==> (#[trigger] parts@[i]).wf(),
    ensures
        r is Some <==> total_of(models(parts@)).cumulative.fits(),
        r matches Some(s) ==> s.wf() && s@ == total_of(models(parts@)),
{
    let ghost ms = models(parts@);
    let mut total = Statistics::new();
    let mut i: usize = 0;
    assert(ms.take(0) =~= Seq::<StatisticsModel>::empty());
    while i < parts.len()
        invariant
            i <= parts@.len(),
            ms == models(parts@),
            forall|k: int| 0 <= k < parts@.len() ==> (#[trigger] parts@[k]).wf(),
            total.wf(),
            total@ == total_of(ms.take(i as int)),
        decreases parts@.len() - i,
    {
        assert(ms.take(i + 1).drop_last() =~= ms.take(i as int));
        if !total.can_merge(&parts[i]) {
            proof {
                lemma_total_of_prefix_le(ms, i + 1);
            }
            return None;
        }
        total.merge(&parts[i]);
        i = i + 1;
    }
    assert(ms.take(parts@.len() as int) =~= ms);
    Some(total)
}

proof fn lemma_total_of_remove(s: Seq<StatisticsModel>, k: int)
    requires
        0 <= k < s.len(),
    ensures
        total_of(s) == total_of(s.remove(k)).plus(s[k]),
    decreases s.len(),
{
    if k == s.len() - 1 {
        assert(s.remove(k) =~= s.drop_last());
    } else {
        lemma_total_of_remove(s.drop_last(), k);
        assert(s.remove(k).drop_last() =~= s.drop_last().remove(k));
        assert(s.remove(k).last() == s.last());
    }
}

/// Merging accumulators does not depend on the order in which they arrive:
/// any two lists that hold the same accumulators, each as often, sum to the
/// same aggregate.
pub proof fn lemma_total_order_irrelevant(a: Seq<StatisticsModel>, b: Seq<StatisticsModel>)
    requires
        a.to_multiset() == b.to_multiset(),
    ensures
        total_of(a) == total_of(b),
    decreases a.len(),
{
    broadcast use
        vstd::seq_lib::to_multiset_remove,
        vstd::seq_lib::to_multiset_contains,
        vstd::seq_lib::to_multiset_len,
    ;

    if a.len() == 0 {
        assert(a.to_multiset().len() == 0);
        assert(b.to_multiset().len() == 0);
        assert(b.len() == 0);
        assert(b =~= a);
    } else {
        let x = a.last();
        assert(a.contains(x)) by {
            assert(a[a.len() - 1] == x);
        }
        assert(a.to_multiset().count(x) > 0);
        assert(b.to_multiset().count(x) > 0);
        let k = choose|k: int| 0 <= k < b.len() && b[k] == x;
        assert(a.remove(a.len() - 1) =~= a.drop_last());
        assert(a.drop_last().to_multiset() == a.to_multiset().remove(x));
        assert(b.remove(k).to_multiset() == b.to_multiset().remove(x));
        lemma_total_order_irrelevant(a.drop_last(), b.remove(k));
        lemma_total_of_remove(b, k);
    }
}

/// Merging accumulators does not depend on their order: `a` then `b`
/// gives the same totals as `b` then `a`.
pub proof fn lemma_merge_commutative(a: StatisticsModel, b: StatisticsModel)
    ensures
        a.plus(b) == b.plus(a),
{
}

/// Merging accumulators does not depend on grouping: `(a + b) + c` gives
/// the same totals as `a + (b + c)`.
pub proof fn lemma_merge_associative(a: StatisticsModel, b: StatisticsModel, c: StatisticsModel)
    ensures
        a.plus(b).plus(c) == a.plus(b.plus(c)),
{
}

} // verus!
