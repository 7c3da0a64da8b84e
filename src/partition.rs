//! Cutting a dataset into contiguous groups, one per generated script.
use vstd::prelude::*;

verus! {

/// Where group `j` of `n` starts in a sequence of length `len`.
pub open spec fn part_start(len: nat, n: nat, j: nat) -> nat {
    j * (len / n)
}

/// Where group `j` of `n` ends (exclusive): each group holds `len / n` items, and the last
/// one also takes the `len % n` left over.
pub open spec fn part_end(len: nat, n: nat, j: nat) -> nat {
    if j + 1 == n {
        len
    } else {
        (j + 1) * (len / n)
    }
}

/// The `n` groups of `data`, in order.
pub open spec fn partitions_of<T>(data: Seq<T>, n: nat) -> Seq<Seq<T>> {
    Seq::new(
        n,
        |j: int| data.subrange(part_start(data.len(), n, j as nat) as int, part_end(data.len(), n, j as nat) as int),
    )
}

/// The bounds of each group lie in order within the sequence, and each group starts
/// where the one before it ends.
pub proof fn lemma_part_bounds(len: nat, n: nat, j: nat)
    requires
        n >= 1,
        j < n,
    ensures
        part_start(len, n, j) <= part_end(len, n, j) <= len,
        j + 1 < n ==> part_end(len, n, j) == part_start(len, n, j + 1),
        j == 0 ==> part_start(len, n, j) == 0,
        part_end(len, n, j) - part_start(len, n, j) == if j + 1 == n {
            len / n + len % n
        } else {
            len / n
        },
{
    let q = len / n;
    let r = len % n;
    assert(len == n * q + r) by (nonlinear_arith)
        requires
            n >= 1,
            q == len / n,
            r == len % n,
    ;
    assert(j * q <= (n - 1) * q) by (nonlinear_arith)
        requires
            j <= n - 1,
    ;
    assert((n - 1) * q + q == n * q) by (nonlinear_arith);
    assert((j + 1) * q == j * q + q) by (nonlinear_arith);
    if j + 1 < n {
        assert((j + 1) * q <= (n - 1) * q) by (nonlinear_arith)
            requires
                j + 1 <= n - 1,
        ;
    }
    if j + 1 == n {
        assert(j * q == (n - 1) * q);
    }
}

/// Every group but the last holds exactly `len / n` items; the last holds
/// `len / n + len % n`, which is all of `data` when `n` is one.
pub proof fn lemma_partition_sizes<T>(data: Seq<T>, n: nat)
    requires
        n >= 1,
    ensures
        partitions_of(data, n).len() == n,
        forall|j: int|
            0 <= j < n - 1 ==> #[trigger] partitions_of(data, n)[j].len() == data.len() / n,
        partitions_of(data, n)[n - 1].len() == data.len() / n + data.len() % n,
        n == 1 ==> partitions_of(data, n)[0] == data,
{
    assert forall|j: int| 0 <= j < n - 1 implies #[trigger] partitions_of(data, n)[j].len()
        == data.len() / n by {
        lemma_part_bounds(data.len(), n, j as nat);
    }
    lemma_part_bounds(data.len(), n, (n - 1) as nat);
    if n == 1 {
        assert(partitions_of(data, n)[0] =~= data);
    }
}

/// Where the first `k` groups end together.
pub open spec fn prefix_end(len: nat, n: nat, k: nat) -> nat {
    if k == 0 {
        0
    } else {
        part_end(len, n, (k - 1) as nat)
    }
}

proof fn lemma_prefix_rejoin<T>(data: Seq<T>, n: nat, k: nat)
    requires
        n >= 1,
        k <= n,
    ensures
        partitions_of(data, n).subrange(0, k as int).flatten() == data.subrange(
            0,
            prefix_end(data.len(), n, k) as int,
        ),
    decreases k,
{
    broadcast use Seq::lemma_flatten_push;

    let parts = partitions_of(data, n);
    let len = data.len();
    if k == 0 {
        assert(parts.subrange(0, 0) =~= Seq::<Seq<T>>::empty());
        assert(data.subrange(0, 0) =~= Seq::<T>::empty());
    } else {
        let i = (k - 1) as nat;
        lemma_prefix_rejoin(data, n, i);
        lemma_part_bounds(len, n, i);
        if i > 0 {
            lemma_part_bounds(len, n, (i - 1) as nat);
        }
        let s = part_start(len, n, i) as int;
        let e = part_end(len, n, i) as int;
        assert(prefix_end(len, n, i) == s);
        assert(parts.subrange(0, k as int) =~= parts.subrange(0, i as int).push(parts[i as int]));
        assert(data.subrange(0, s) + data.subrange(s, e) =~= data.subrange(0, e));
    }
}

/// Joining the groups in order gives back `data`: nothing is lost, repeated or moved.
pub proof fn lemma_partitions_rejoin<T>(data: Seq<T>, n: nat)
    requires
        n >= 1,
    ensures
        partitions_of(data, n).flatten() == data,
{
    lemma_prefix_rejoin(data, n, n);
    assert(partitions_of(data, n).subrange(0, n as int) =~= partitions_of(data, n));
    assert(data.subrange(0, data.len() as int) =~= data);
}

/// The bounds `(start, end)` of each of the `count` groups of a sequence of length `len`.
pub fn partition_ranges(len: usize, count: u8) -> (r: Vec<(usize, usize)>)
    requires
        count >= 1,
    ensures
        r.len() == count,
        forall|j: int|
            0 <= j < count ==> #[trigger] r[j].0 == part_start(len as nat, count as nat, j as nat)
                && r[j].1 == part_end(len as nat, count as nat, j as nat),
{
    let n = count as usize;
    let q = len / n;
    let mut r: Vec<(usize, usize)> = Vec::new();
    let mut j: usize = 0;
    while j < n
        invariant
            n == count as usize,
            n >= 1,
            q == len / n,
            j <= n,
            r.len() == j,
            forall|i: int|
                0 <= i < j ==> #[trigger] r[i].0 == part_start(len as nat, count as nat, i as nat)
                    && r[i].1 == part_end(len as nat, count as nat, i as nat),
        decreases n - j,
    {
        proof {
            lemma_part_bounds(len as nat, n as nat, j as nat);
        }
        assert(j * q == part_start(len as nat, n as nat, j as nat));
        let start = j * q;
        let end = if j + 1 == n {
            len
        } else {
            proof {
                lemma_part_bounds(len as nat, n as nat, (j + 1) as nat);
            }
            start + q
        };
        assert((j + 1) * q == j * q + q) by (nonlinear_arith);
        r.push((start, end));
        j = j + 1;
    }
    r
}

/// The `count` groups of `data`, in order: group `j` is `data[part_start .. part_end]`.
pub fn partition(data: &Vec<String>, count: u8) -> (r: Vec<Vec<String>>)
    requires
        count >= 1,
    ensures
        r.deep_view() == partitions_of(data.deep_view(), count as nat),
{
    let ranges = partition_ranges(data.len(), count);
    let mut r: Vec<Vec<String>> = Vec::new();
    let mut j: usize = 0;
    while j < ranges.len()
        invariant
            ranges.len() == count,
            count >= 1,
            forall|i: int|
                0 <= i < count ==> #[trigger] ranges[i].0 == part_start(data.len() as nat, count as nat, i as nat)
                    && ranges[i].1 == part_end(data.len() as nat, count as nat, i as nat),
            j <= ranges.len(),
            r.len() == j,
            forall|i: int|
                0 <= i < j ==> #[trigger] r.deep_view()[i] == partitions_of(
                    data.deep_view(),
                    count as nat,
                )[i],
        decreases ranges.len() - j,
    {
        proof {
            lemma_part_bounds(data.len() as nat, count as nat, j as nat);
        }
        let (start, end) = ranges[j];
        let mut group: Vec<String> = Vec::new();
        let mut k: usize = start;
        while k < end
            invariant
                start <= k <= end <= data.len(),
                group.deep_view() == data.deep_view().subrange(start as int, k as int),
            decreases end - k,
        {
            let item = data[k].clone();
            let ghost before = group.deep_view();
            group.push(item);
            assert(group.deep_view() =~= before.push(data.deep_view()[k as int]));
            assert(group.deep_view() =~= data.deep_view().subrange(start as int, k + 1));
            k = k + 1;
        }
        let ghost before = r.deep_view();
        r.push(group);
        assert(r.deep_view() =~= before.push(group.deep_view()));
        j = j + 1;
    }
    assert(r.deep_view() =~= partitions_of(data.deep_view(), count as nat));
    r
}

} // verus!
