use rand::seq::SliceRandom;
use rand::SeedableRng;
use vstd::prelude::*;

use crate::hook::{strs, Hook};

verus! {

broadcast use vstd::seq_lib::group_seq_properties;

/// Ceiling on the length of one command line, kept well below the real
/// operating-system limit to leave room for the environment.
pub const MAX_CLI_LENGTH: usize = 4096;

/// Length in bytes of the UTF-8 encoding of `s`, as `str::len` reports it.
pub open spec fn blen(s: Seq<char>) -> int {
    (vstd::utf8::encode_utf8(s).len() as usize) as int
}

/// Bytes that a sequence of arguments takes, each with one separator.
pub open spec fn args_len(s: Seq<Seq<char>>) -> int
    decreases s.len(),
{
    if s.len() == 0 {
        0
    } else {
        args_len(s.drop_last()) + blen(s.last()) + 1
    }
}

proof fn lemma_args_len_nonneg(s: Seq<Seq<char>>)
    ensures
        args_len(s) >= 0,
    decreases s.len(),
{
    if s.len() > 0 {
        lemma_args_len_nonneg(s.drop_last());
    }
}

/// Bytes that a hook's fixed command line takes: the entry, then each
/// argument with its separator.
pub open spec fn command_len(hook: Hook) -> int {
    blen(hook.entry@) + args_len(strs(hook.args@))
}

/// Bytes that a command line of `cmd` bytes takes with the files of `batch`.
pub open spec fn line_len(cmd: int, batch: Seq<Seq<char>>) -> int {
    cmd + 1 + args_len(batch)
}

/// Largest number of files in one batch.
pub open spec fn max_per_batch(n: int, concurrency: int) -> int {
    let per = n / concurrency + if n % concurrency == 0 {
        0int
    } else {
        1int
    };
    if per < 4 {
        4
    } else {
        per
    }
}

/// A batch is within bounds: at most `m` files, and either one file or a
/// command line within the ceiling.
pub open spec fn batch_ok(cmd: int, m: int, b: Seq<Seq<char>>) -> bool {
    &&& 0 < b.len() <= m
    &&& (b.len() == 1 || line_len(cmd, b) <= MAX_CLI_LENGTH)
}

/// Batch `b` could not have taken file `next` as well.
pub open spec fn full(cmd: int, m: int, b: Seq<Seq<char>>, next: Seq<char>) -> bool {
    b.len() >= m || line_len(cmd, b) + blen(next) + 1 > MAX_CLI_LENGTH
}

/// `batches` is the greedy partition of `files`: in order, each batch within
/// bounds, and each batch ended only where the next file did not fit.
pub open spec fn greedy_partition(
    cmd: int,
    m: int,
    files: Seq<Seq<char>>,
    batches: Seq<Seq<Seq<char>>>,
) -> bool {
    &&& batches.flatten() == files
    &&& forall|k: int| 0 <= k < batches.len() ==> batch_ok(cmd, m, #[trigger] batches[k])
    &&& forall|k: int|
        0 <= k < batches.len() - 1 ==> full(cmd, m, #[trigger] batches[k], batches[k + 1][0])
}

/// The view of a list of batches.
pub open spec fn batches_view<'a>(p: Seq<Vec<&'a String>>) -> Seq<Seq<Seq<char>>> {
    p.map_values(|b: Vec<&'a String>| b@.map_values(|s: &'a String| s@))
}

proof fn lemma_flatten_push<A>(s: Seq<Seq<A>>, b: Seq<A>)
    ensures
        s.push(b).flatten() == s.flatten() + b,
{
    vstd::seq_lib::lemma_flatten_concat(s, seq![b]);
    assert(s.push(b) == s + seq![b]);
    assert(seq![b].drop_first() == Seq::<Seq<A>>::empty());
    assert(seq![b].flatten() == b + Seq::<Seq<A>>::empty().flatten());
    assert(b + Seq::<A>::empty() == b);
}

/// Byte length of `s`, each argument counted with its separator.
fn sum_args(s: &Vec<String>) -> (r: usize)
    ensures
        r == if args_len(strs(s@)) < usize::MAX {
            args_len(strs(s@))
        } else {
            usize::MAX as int
        },
{
    let mut total: usize = 0;
    let mut i: usize = 0;
    while i < s.len()
        invariant
            0 <= i <= s.len(),
            total == if args_len(strs(s@).take(i as int)) < usize::MAX {
                args_len(strs(s@).take(i as int))
            } else {
                usize::MAX as int
            },
        decreases s.len() - i,
    {
        assert(strs(s@).take(i + 1).drop_last() == strs(s@).take(i as int));
        proof {
            lemma_args_len_nonneg(strs(s@).take(i as int));
        }
        total = total.saturating_add(s[i].as_str().len()).saturating_add(1);
        i = i + 1;
    }
    assert(strs(s@).take(s.len() as int) == strs(s@));
    total
}

/// Splits `filenames` into batches for one hook: an empty list gives one empty
/// batch; otherwise each batch holds at most `max(4, ceil(n / concurrency))`
/// files and, unless it holds a single file, a command line no longer than
/// `MAX_CLI_LENGTH`; a new batch starts only where the next file does not fit.
pub fn partitions<'a>(hook: &'a Hook, filenames: &'a [&'a String], concurrency: usize) -> (r: Vec<
    Vec<&'a String>,
>)
    requires
        concurrency >= 1,
    ensures
        filenames.len() == 0 ==> batches_view(r@) == seq![Seq::<Seq<char>>::empty()],
        filenames.len() > 0 ==> greedy_partition(
            command_len(*hook),
            max_per_batch(filenames.len() as int, concurrency as int),
            filenames@.map_values(|s: &'a String| s@),
            batches_view(r@),
        ),
{
    if filenames.len() == 0 {
        let mut r: Vec<Vec<&'a String>> = Vec::new();
        r.push(Vec::new());
        assert(batches_view(r@)[0] =~= Seq::<Seq<char>>::empty());
        assert(batches_view(r@) =~= seq![Seq::<Seq<char>>::empty()]);
        return r;
    }
    let n = filenames.len();
    let q = n / concurrency;
    assert(n % concurrency != 0 ==> q < usize::MAX) by (nonlinear_arith)
        requires
            concurrency >= 1,
            q == n / concurrency,
            n <= usize::MAX,
    ;
    let per = if n % concurrency == 0 {
        q
    } else {
        q + 1
    };
    let per_batch: usize = if per < 4 {
        4
    } else {
        per
    };
    let ghost m = per_batch as int;
    let ghost cmd = command_len(*hook);
    let ghost files = filenames@.map_values(|s: &'a String| s@);
    proof {
        lemma_args_len_nonneg(strs(hook.args@));
    }
    let command_length = hook.entry.as_str().len().saturating_add(sum_args(&hook.args));
    assert(command_length == if cmd < usize::MAX { cmd } else { usize::MAX as int });

    let mut partitions: Vec<Vec<&'a String>> = Vec::new();
    let mut current: Vec<&'a String> = Vec::new();
    let mut current_length = command_length.saturating_add(1);
    let mut i: usize = 0;
    while i < n
        invariant
            n == filenames.len(),
            0 <= i <= n,
            m == per_batch,
            m == max_per_batch(n as int, concurrency as int),
            cmd == command_len(*hook),
            cmd >= 0,
            command_length == if cmd < usize::MAX {
                cmd
            } else {
                usize::MAX as int
            },
            files == filenames@.map_values(|s: &'a String| s@),
            batches_view(partitions@).flatten() + current@.map_values(|s: &'a String| s@)
                == files.take(i as int),
            i > 0 ==> current.len() > 0,
            current.len() > 0 ==> batch_ok(cmd, m, current@.map_values(|s: &'a String| s@)),
            current_length == if line_len(cmd, current@.map_values(|s: &'a String| s@))
                < usize::MAX {
                line_len(cmd, current@.map_values(|s: &'a String| s@))
            } else {
                usize::MAX as int
            },
            forall|k: int|
                0 <= k < partitions.len() ==> batch_ok(
                    cmd,
                    m,
                    #[trigger] batches_view(partitions@)[k],
                ),
            forall|k: int|
                0 <= k < partitions.len() - 1 ==> full(
                    cmd,
                    m,
                    #[trigger] batches_view(partitions@)[k],
                    batches_view(partitions@)[k + 1][0],
                ),
            partitions.len() > 0 ==> current.len() > 0 && full(
                cmd,
                m,
                batches_view(partitions@).last(),
                current@.map_values(|s: &'a String| s@)[0],
            ),
        decreases n - i,
    {
        let filename = filenames[i];
        let length = filename.as_str().len().saturating_add(1);
        assert(length == if blen(filename@) + 1 < usize::MAX {
            blen(filename@) + 1
        } else {
            usize::MAX as int
        });
        let ghost cur = current@.map_values(|s: &'a String| s@);
        let ghost old_parts = batches_view(partitions@);
        if current.len() > 0 && (current_length.saturating_add(length) > MAX_CLI_LENGTH
            || current.len() >= per_batch) {
            assert(full(cmd, m, cur, filename@));
            partitions.push(current);
            proof {
                assert(batches_view(partitions@) == old_parts.push(cur));
                lemma_flatten_push(old_parts, cur);
            }
            current = Vec::new();
            current_length = command_length.saturating_add(1);
            assert(current@.map_values(|s: &'a String| s@) == Seq::<Seq<char>>::empty());
        }
        let ghost cur1 = current@.map_values(|s: &'a String| s@);
        proof {
            lemma_args_len_nonneg(cur1);
        }
        current.push(filename);
        current_length = current_length.saturating_add(length);
        proof {
            let cur2 = current@.map_values(|s: &'a String| s@);
            assert(cur2 == cur1.push(filename@));
            assert(cur2.drop_last() == cur1);
            assert(line_len(cmd, cur2) == line_len(cmd, cur1) + blen(filename@) + 1);
            assert(files.take(i + 1) == files.take(i as int).push(files[i as int]));
        }
        i = i + 1;
    }
    let ghost cur = current@.map_values(|s: &'a String| s@);
    let ghost old_parts = batches_view(partitions@);
    partitions.push(current);
    proof {
        assert(batches_view(partitions@) == old_parts.push(cur));
        lemma_flatten_push(old_parts, cur);
        assert(files.take(n as int) == files);
    }
    partitions
}

proof fn lemma_args_len_prefix(s: Seq<Seq<char>>, j: int)
    requires
        0 <= j <= s.len(),
    ensures
        args_len(s.take(j)) <= args_len(s),
    decreases s.len() - j,
{
    if j < s.len() {
        lemma_args_len_prefix(s, j + 1);
        assert(s.take(j + 1).drop_last() == s.take(j));
    }
}

proof fn lemma_flatten_member<A>(b: Seq<Seq<A>>, k: int, x: A)
    requires
        0 <= k < b.len(),
        b[k].contains(x),
    ensures
        b.flatten().contains(x),
    decreases b.len(),
{
    if k == 0 {
        let i = choose|i: int| 0 <= i < b[0].len() && b[0][i] == x;
        assert((b.first() + b.drop_first().flatten())[i] == x);
    } else {
        lemma_flatten_member(b.drop_first(), k - 1, x);
        let i = choose|i: int|
            0 <= i < b.drop_first().flatten().len() && b.drop_first().flatten()[i] == x;
        assert((b.first() + b.drop_first().flatten())[b.first().len() + i] == x);
    }
}

proof fn lemma_greedy_rest(cmd: int, m: int, files: Seq<Seq<char>>, b: Seq<Seq<Seq<char>>>)
    requires
        greedy_partition(cmd, m, files, b),
        b.len() > 0,
    ensures
        greedy_partition(cmd, m, files.skip(b[0].len() as int), b.drop_first()),
        files.take(b[0].len() as int) == b[0],
{
    assert(files == b[0] + b.drop_first().flatten());
    assert(files.skip(b[0].len() as int) == b.drop_first().flatten());
    assert(files.take(b[0].len() as int) == b[0]);
    assert forall|k: int| 0 <= k < b.drop_first().len() implies batch_ok(
        cmd,
        m,
        #[trigger] b.drop_first()[k],
    ) by {
        assert(b.drop_first()[k] == b[k + 1]);
    }
    assert forall|k: int| 0 <= k < b.drop_first().len() - 1 implies full(
        cmd,
        m,
        #[trigger] b.drop_first()[k],
        b.drop_first()[k + 1][0],
    ) by {
        assert(b.drop_first()[k] == b[k + 1]);
    }
}

/// A list has exactly one greedy partition: identical inputs always yield
/// identical batch sequences.
pub proof fn lemma_partition_unique(
    cmd: int,
    m: int,
    files: Seq<Seq<char>>,
    b1: Seq<Seq<Seq<char>>>,
    b2: Seq<Seq<Seq<char>>>,
)
    requires
        greedy_partition(cmd, m, files, b1),
        greedy_partition(cmd, m, files, b2),
    ensures
        b1 == b2,
    decreases files.len(),
{
    if b1.len() == 0 || b2.len() == 0 {
        if b1.len() > 0 {
            assert(batch_ok(cmd, m, b1[0]));
            assert(b1.flatten() == b1[0] + b1.drop_first().flatten());
        }
        if b2.len() > 0 {
            assert(batch_ok(cmd, m, b2[0]));
            assert(b2.flatten() == b2[0] + b2.drop_first().flatten());
        }
        assert(b1 =~= b2);
        return;
    }
    lemma_greedy_rest(cmd, m, files, b1);
    lemma_greedy_rest(cmd, m, files, b2);
    lemma_no_shorter_head(cmd, m, files, b1, b2);
    lemma_no_shorter_head(cmd, m, files, b2, b1);
    let n = b1[0].len() as int;
    assert(b1[0] == b2[0]);
    assert(batch_ok(cmd, m, b1[0]));
    lemma_partition_unique(cmd, m, files.skip(n), b1.drop_first(), b2.drop_first());
    assert(b1 == seq![b1[0]] + b1.drop_first());
    assert(b2 == seq![b2[0]] + b2.drop_first());
}

proof fn lemma_no_shorter_head(
    cmd: int,
    m: int,
    files: Seq<Seq<char>>,
    b1: Seq<Seq<Seq<char>>>,
    b2: Seq<Seq<Seq<char>>>,
)
    requires
        greedy_partition(cmd, m, files, b1),
        greedy_partition(cmd, m, files, b2),
        b1.len() > 0,
        b2.len() > 0,
    ensures
        b1[0].len() >= b2[0].len(),
{
    lemma_greedy_rest(cmd, m, files, b1);
    lemma_greedy_rest(cmd, m, files, b2);
    let x = b1[0];
    let y = b2[0];
    if x.len() < y.len() {
        let n = x.len() as int;
        assert(batch_ok(cmd, m, y));
        assert(batch_ok(cmd, m, x));
        // files continue past x, so b1 has a second batch
        if b1.len() == 1 {
            assert(b1.drop_first().flatten() == Seq::<Seq<char>>::empty());
            assert(files.len() == n);
            assert(false);
        }
        assert(batch_ok(cmd, m, b1[1]));
        assert(b1.drop_first().flatten() == b1[1] + b1.drop_first().drop_first().flatten());
        assert(b1[1][0] == files[n]);
        assert(files[n] == y[n]);
        assert(full(cmd, m, x, b1[1][0]));
        let z = y.take(n + 1);
        assert(z.drop_last() == x);
        assert(args_len(z) == args_len(x) + blen(y[n]) + 1);
        lemma_args_len_prefix(y, n + 1);
        assert(y.len() > 1);
        assert(false);
    }
}

/// For a non-empty list of files, each of which fits on a command line by
/// itself, the greedy partition reproduces the list in order, and every batch
/// stays within the length ceiling and holds at most `max_per_batch` files.
pub proof fn lemma_partition_bounds(
    hook: Hook,
    files: Seq<Seq<char>>,
    concurrency: int,
    batches: Seq<Seq<Seq<char>>>,
)
    requires
        files.len() > 0,
        concurrency >= 1,
        greedy_partition(
            command_len(hook),
            max_per_batch(files.len() as int, concurrency),
            files,
            batches,
        ),
        forall|i: int|
            0 <= i < files.len() ==> line_len(command_len(hook), seq![#[trigger] files[i]])
                <= MAX_CLI_LENGTH,
    ensures
        batches.flatten() == files,
        forall|k: int|
            0 <= k < batches.len() ==> (#[trigger] batches[k]).len() <= max_per_batch(
                files.len() as int,
                concurrency,
            ) && line_len(command_len(hook), batches[k]) <= MAX_CLI_LENGTH,
{
    let cmd = command_len(hook);
    let m = max_per_batch(files.len() as int, concurrency);
    assert forall|k: int| 0 <= k < batches.len() implies (#[trigger] batches[k]).len() <= m
        && line_len(cmd, batches[k]) <= MAX_CLI_LENGTH by {
        assert(batch_ok(cmd, m, batches[k]));
        if batches[k].len() == 1 {
            assert(batches[k].contains(batches[k][0]));
            lemma_flatten_member(batches, k, batches[k][0]);
            let i = choose|i: int| 0 <= i < files.len() && files[i] == batches[k][0];
            assert(batches[k] == seq![files[i]]);
        }
    }
}

/// Seed of the shuffle that spreads files over batches; fixed so that runs are
/// reproducible.
pub const SHUFFLE_SEED: u64 = 1_542_676_187;

/// The order in which rand's slice shuffle, driven by a `StdRng` seeded with
/// `seed`, leaves `items`.
pub uninterp spec fn seeded_shuffle(items: Seq<Seq<char>>, seed: u64) -> Seq<Seq<char>>;

/// Relies on rand's `SliceRandom::shuffle` with `StdRng::seed_from_u64`: a
/// permutation of the items that depends on the items and the seed alone.
#[verifier::external_body]
fn shuffle_seeded(items: &mut Vec<String>, seed: u64)
    ensures
        strs(final(items)@) == seeded_shuffle(strs(old(items)@), seed),
        strs(final(items)@).to_multiset() == strs(old(items)@).to_multiset(),
{
    let mut rng = rand::rngs::StdRng::seed_from_u64(seed);
    items.shuffle(&mut rng);
}

/// Shuffles the files so that they fill the batches more evenly, with a fixed
/// seed in case a hook cares about ordering.
pub fn shuffle(filenames: &mut Vec<String>)
    ensures
        strs(final(filenames)@) == seeded_shuffle(strs(old(filenames)@), SHUFFLE_SEED),
        strs(final(filenames)@).to_multiset() == strs(old(filenames)@).to_multiset(),
{
    shuffle_seeded(filenames, SHUFFLE_SEED);
}

/// Concurrency for one hook: one where the hook asks for serial execution or
/// concurrency is switched off, else the number of available execution units
/// (one where that is unknown).
pub fn target_concurrency(serial: bool, no_concurrency: bool, available: Option<usize>) -> (r:
    usize)
    ensures
        r >= 1,
        r == if serial || no_concurrency {
            1
        } else {
            match available {
                Some(k) if k > 0 => k,
                _ => 1,
            }
        },
{
    if serial || no_concurrency {
        1
    } else {
        match available {
            Some(k) if k > 0 => k,
            _ => 1,
        }
    }
}

/// The views of owned batches.
pub open spec fn owned_batches(p: Seq<Vec<String>>) -> Seq<Seq<Seq<char>>> {
    p.map_values(|b: Vec<String>| strs(b@))
}

/// The files that a hook is handed: the seeded shuffle of the filtered list
/// where the hook takes filenames, none otherwise.
pub open spec fn handed_files(hook: Hook, files: Seq<Seq<char>>) -> Seq<Seq<char>> {
    if hook.pass_filenames {
        seeded_shuffle(files, SHUFFLE_SEED)
    } else {
        Seq::empty()
    }
}

/// `batches` are the batches that a hook runs on `files` at `concurrency`.
pub open spec fn planned(
    hook: Hook,
    files: Seq<Seq<char>>,
    concurrency: int,
    batches: Seq<Seq<Seq<char>>>,
) -> bool {
    let handed = handed_files(hook, files);
    if handed.len() == 0 {
        batches == seq![Seq::<Seq<char>>::empty()]
    } else {
        greedy_partition(
            command_len(hook),
            max_per_batch(handed.len() as int, concurrency),
            handed,
            batches,
        )
    }
}

/// The batches that `hook` runs on the filtered `filenames`: shuffled with
/// the fixed seed where the hook takes filenames, then partitioned.
pub fn plan_batches(hook: &Hook, filenames: Vec<String>, concurrency: usize) -> (r: Vec<
    Vec<String>,
>)
    requires
        concurrency >= 1,
    ensures
        planned(*hook, strs(filenames@), concurrency as int, owned_batches(r@)),
        hook.pass_filenames ==> owned_batches(r@).flatten().to_multiset() == strs(
            filenames@,
        ).to_multiset(),
        filenames.len() == 0 || !hook.pass_filenames ==> owned_batches(r@) == seq![
            Seq::<Seq<char>>::empty(),
        ],
{
    let ghost input = strs(filenames@);
    let mut files = filenames;
    if hook.pass_filenames {
        shuffle(&mut files);
    } else {
        files = Vec::new();
        assert(strs(files@) =~= Seq::<Seq<char>>::empty());
    }
    let ghost handed = strs(files@);
    let mut refs: Vec<&String> = Vec::new();
    let mut i: usize = 0;
    while i < files.len()
        invariant
            0 <= i <= files.len(),
            refs@.map_values(|s: &String| s@) == strs(files@).take(i as int),
        decreases files.len() - i,
    {
        refs.push(&files[i]);
        assert(strs(files@).take(i + 1) == strs(files@).take(i as int).push(files@[i as int]@));
        i = i + 1;
    }
    assert(strs(files@).take(files.len() as int) == strs(files@));
    let parts = partitions(hook, refs.as_slice(), concurrency);
    let mut r: Vec<Vec<String>> = Vec::new();
    let mut k: usize = 0;
    while k < parts.len()
        invariant
            0 <= k <= parts.len(),
            owned_batches(r@) == batches_view(parts@).take(k as int),
        decreases parts.len() - k,
    {
        let mut b: Vec<String> = Vec::new();
        let mut j: usize = 0;
        while j < parts[k].len()
            invariant
                0 <= k < parts.len(),
                0 <= j <= parts[k as int].len(),
                strs(b@) == batches_view(parts@)[k as int].take(j as int),
            decreases parts[k as int].len() - j,
        {
            let f: &String = parts[k][j];
            b.push(f.clone());
            assert(strs(b@) == batches_view(parts@)[k as int].take(j as int).push(f@));
            assert(batches_view(parts@)[k as int].take(j + 1) == batches_view(parts@)[k as int].take(
                j as int,
            ).push(f@));
            j = j + 1;
        }
        assert(batches_view(parts@)[k as int].take(j as int) == batches_view(parts@)[k as int]);
        r.push(b);
        assert(owned_batches(r@) == batches_view(parts@).take(k as int).push(
            batches_view(parts@)[k as int],
        ));
        assert(batches_view(parts@).take(k + 1) == batches_view(parts@).take(k as int).push(
            batches_view(parts@)[k as int],
        ));
        k = k + 1;
    }
    assert(batches_view(parts@).take(parts.len() as int) == batches_view(parts@));
    proof {
        let handed = handed_files(*hook, input);
        if hook.pass_filenames {
            assert(handed.to_multiset() == input.to_multiset());
            assert(handed.len() == input.len()) by {
                handed.to_multiset_ensures();
                input.to_multiset_ensures();
            }
            if handed.len() == 0 {
                let e = seq![Seq::<Seq<char>>::empty()];
                assert(e.drop_first() =~= Seq::<Seq<Seq<char>>>::empty());
                assert(Seq::<Seq<Seq<char>>>::empty().flatten() =~= Seq::<Seq<char>>::empty());
                assert(e.first() =~= Seq::<Seq<char>>::empty());
                assert(e.flatten() == e.first() + e.drop_first().flatten());
                assert(e.flatten() =~= Seq::<Seq<char>>::empty());
                assert(handed =~= Seq::<Seq<char>>::empty());
            }
        }
    }
    r
}

/// Shuffling and partitioning are deterministic: the same hook, files and
/// concurrency always give the same batches.
pub proof fn lemma_plan_deterministic(
    hook: Hook,
    files: Seq<Seq<char>>,
    concurrency: int,
    b1: Seq<Seq<Seq<char>>>,
    b2: Seq<Seq<Seq<char>>>,
)
    requires
        planned(hook, files, concurrency, b1),
        planned(hook, files, concurrency, b2),
    ensures
        b1 == b2,
{
    let handed = handed_files(hook, files);
    if handed.len() > 0 {
        lemma_partition_unique(
            command_len(hook),
            max_per_batch(handed.len() as int, concurrency),
            handed,
            b1,
            b2,
        );
    }
}

/// Number of batches of one hook that run at the same time: its concurrency,
/// but no more than it has batches.
pub fn limiter_size(concurrency: usize, batch_count: usize) -> (r: usize)
    ensures
        r == if concurrency < batch_count {
            concurrency
        } else {
            batch_count
        },
{
    if concurrency < batch_count {
        concurrency
    } else {
        batch_count
    }
}

} // verus!
