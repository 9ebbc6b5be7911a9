use vstd::prelude::*;

verus! {

/// What one batch of a hook gave, tagged with the batch's position in the
/// partition.
pub struct BatchOutcome {
    pub index: usize,
    pub status: i32,
    pub output: Vec<u8>,
}

/// Some outcome is tagged with position `k`.
pub open spec fn has_tag(c: Seq<BatchOutcome>, k: int) -> bool {
    exists|j: int| 0 <= j < c.len() && c[j].index == k
}

/// Each position `0..c.len()` is the tag of exactly one outcome.
pub open spec fn tags_complete(c: Seq<BatchOutcome>) -> bool {
    &&& forall|j: int| 0 <= j < c.len() ==> #[trigger] c[j].index < c.len()
    &&& forall|k: int| 0 <= k < c.len() ==> #[trigger] has_tag(c, k)
    &&& forall|j1: int, j2: int|
        0 <= j1 < c.len() && 0 <= j2 < c.len() && j1 != j2 ==> #[trigger] c[j1].index
            != #[trigger] c[j2].index
}

/// The outcome tagged with position `k`.
pub open spec fn at_position(c: Seq<BatchOutcome>, k: int) -> BatchOutcome {
    c[choose|j: int| 0 <= j < c.len() && c[j].index == k]
}

/// The outcomes in partition order.
pub open spec fn in_partition_order(c: Seq<BatchOutcome>) -> Seq<BatchOutcome> {
    Seq::new(c.len(), |k: int| at_position(c, k))
}

/// The statuses combined by bitwise or: zero exactly when every one is zero.
pub open spec fn combined_status(s: Seq<BatchOutcome>) -> i32
    decreases s.len(),
{
    if s.len() == 0 {
        0
    } else {
        combined_status(s.drop_last()) | s.last().status
    }
}

/// The outputs one after another.
pub open spec fn combined_output(s: Seq<BatchOutcome>) -> Seq<u8>
    decreases s.len(),
{
    if s.len() == 0 {
        Seq::empty()
    } else {
        combined_output(s.drop_last()) + s.last().output@
    }
}

proof fn lemma_or_zero(a: i32, b: i32)
    ensures
        (a | b == 0) == (a == 0 && b == 0),
{
    assert((a | b == 0) == (a == 0 && b == 0)) by (bit_vector);
}

/// The combined status is zero exactly when every batch exited with zero.
pub proof fn lemma_combined_status_zero(s: Seq<BatchOutcome>)
    ensures
        (combined_status(s) == 0) == (forall|i: int| 0 <= i < s.len() ==> #[trigger] s[i].status
            == 0),
    decreases s.len(),
{
    if s.len() > 0 {
        lemma_combined_status_zero(s.drop_last());
        lemma_or_zero(combined_status(s.drop_last()), s.last().status);
        if combined_status(s) == 0 {
            assert forall|i: int| 0 <= i < s.len() implies #[trigger] s[i].status == 0 by {
                if i < s.len() - 1 {
                    assert(s.drop_last()[i] == s[i]);
                }
            }
        } else {
            if forall|i: int| 0 <= i < s.len() ==> #[trigger] s[i].status == 0 {
                assert forall|i: int| 0 <= i < s.drop_last().len() implies #[trigger] s.drop_last()[i].status == 0 by {
                    assert(s.drop_last()[i] == s[i]);
                }
                assert(s[s.len() - 1].status == 0);
            }
        }
    }
}

/// Combines the outcomes of all batches of one hook, which may have completed
/// in any order: the status is the bitwise or of all statuses (non-zero
/// exactly when some batch failed), and the output is the batches' outputs in
/// partition order.
pub fn combine_batches(completed: &Vec<BatchOutcome>) -> (r: (i32, Vec<u8>))
    requires
        tags_complete(completed@),
    ensures
        r.0 == combined_status(in_partition_order(completed@)),
        (r.0 == 0) == (forall|i: int| 0 <= i < completed.len() ==> #[trigger] completed@[i].status
            == 0),
        r.1@ == combined_output(in_partition_order(completed@)),
{
    let ghost c = completed@;
    let ghost ordered = in_partition_order(c);
    let n = completed.len();
    let mut status: i32 = 0;
    let mut output: Vec<u8> = Vec::new();
    let mut k: usize = 0;
    while k < n
        invariant
            n == completed.len(),
            c == completed@,
            ordered == in_partition_order(c),
            tags_complete(c),
            0 <= k <= n,
            status == combined_status(ordered.take(k as int)),
            output@ == combined_output(ordered.take(k as int)),
        decreases n - k,
    {
        let mut j: usize = 0;
        while j < n && completed[j].index != k
            invariant
                n == completed.len(),
                c == completed@,
                0 <= j <= n,
                forall|i: int| 0 <= i < j ==> c[i].index != k,
            decreases n - j,
        {
            j = j + 1;
        }
        proof {
            assert(has_tag(c, k as int));
            let w = choose|i: int| 0 <= i < c.len() && c[i].index == k as int;
            assert(c[w].index == k);
            assert(j < n);
            assert(at_position(c, k as int) == c[j as int]);
            assert(ordered[k as int] == c[j as int]);
            assert(ordered.take(k + 1).drop_last() == ordered.take(k as int));
        }
        let b = &completed[j];
        status = status | b.status;
        let mut i: usize = 0;
        let ghost before = output@;
        while i < b.output.len()
            invariant
                0 <= i <= b.output.len(),
                output@ == before + b.output@.take(i as int),
            decreases b.output.len() - i,
        {
            output.push(b.output[i]);
            assert(b.output@.take(i + 1) == b.output@.take(i as int).push(b.output@[i as int]));
            i = i + 1;
        }
        assert(b.output@.take(i as int) == b.output@);
        k = k + 1;
    }
    proof {
        assert(ordered.take(n as int) == ordered);
        lemma_combined_status_zero(ordered);
        if forall|i: int| 0 <= i < c.len() ==> #[trigger] c[i].status == 0 {
            assert forall|i: int| 0 <= i < ordered.len() implies #[trigger] ordered[i].status
                == 0 by {
                assert(has_tag(c, i));
                let w = choose|j: int| 0 <= j < c.len() && c[j].index == i;
                assert(ordered[i] == c[w]);
            }
        }
        if forall|i: int| 0 <= i < ordered.len() ==> #[trigger] ordered[i].status == 0 {
            assert forall|i: int| 0 <= i < c.len() implies #[trigger] c[i].status == 0 by {
                let k = c[i].index as int;
                assert(has_tag(c, k));
                let w = choose|j: int| 0 <= j < c.len() && c[j].index == k;
                assert(ordered[k] == c[w]);
                assert(w == i);
            }
        }
    }
    (status, output)
}

} // verus!
