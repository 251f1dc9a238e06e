//! Generic search, split and copy operations over slices: locating a
//! contiguous sub-sequence, splitting on it, and copying or
//! transforming elements between caller-owned buffers.

use vstd::laws_eq::obeys_concrete_eq;
use vstd::prelude::*;

verus! {

/// `query` matches `source` at start index `i`: the window of
/// `query.len()` elements of `source` beginning at `i` lies entirely
/// within `source` and equals `query`.
pub open spec fn match_at<T>(source: Seq<T>, query: Seq<T>, i: int) -> bool {
    &&& 0 <= i
    &&& i + query.len() <= source.len()
    &&& source.subrange(i, i + query.len()) == query
}

/// `query` occurs somewhere in `source` as a contiguous sub-sequence.
pub open spec fn occurs_in<T>(source: Seq<T>, query: Seq<T>) -> bool {
    exists|i: int| match_at(source, query, i)
}

/// Whether the window of `source` beginning at `i` equals `query`,
/// compared element by element. The caller guarantees the window fits.
fn window_matches<T: PartialEq>(source: &[T], query: &[T], i: usize) -> (r: bool)
    requires
        obeys_concrete_eq::<T>(),
        i + query@.len() <= source@.len(),
    ensures
        r == match_at(source@, query@, i as int),
{
    let source_len = source.len();
    let mut j: usize = 0;
    while j < query.len()
        invariant
            obeys_concrete_eq::<T>(),
            j <= query@.len(),
            i + query@.len() <= source@.len(),
            source_len == source@.len(),
            forall|k: int| 0 <= k < j ==> source@[i + k] == query@[k],
        decreases query@.len() - j,
    {
        let same = source[i + j] == query[j];
        proof {
            reveal(vstd::laws_eq::obeys_concrete_eq);
        }
        if !same {
            proof {
                assert(source@.subrange(i as int, i + query@.len())[j as int] != query@[j as int]);
            }
            return false;
        }
        j = j + 1;
    }
    proof {
        assert(source@.subrange(i as int, i + query@.len()) =~= query@);
    }
    true
}

/// Returns the smallest start index at which `query` occurs in
/// `source`, scanning left to right; `None` when it occurs nowhere,
/// including when `query` is longer than any remaining suffix of
/// `source`. A candidate window whose end would pass the end of
/// `source` is skipped, never read. An empty `query` matches at index 0.
pub fn find_first_index_in_slice<T: PartialEq>(source: &[T], query: &[T]) -> (r: Option<usize>)
    requires
        obeys_concrete_eq::<T>(),
    ensures
        match r {
            Some(first_idx) => match_at(source@, query@, first_idx as int) && (forall|j: int|
                0 <= j < first_idx ==> !match_at(source@, query@, j)),
            None => !occurs_in(source@, query@),
        },
        query@.len() == 0 ==> r == Some(0usize),
{
    if query.len() == 0 {
        proof {
            assert(source@.subrange(0, 0) =~= query@);
        }
        return Some(0);
    }
    if query.len() > source.len() {
        return None;
    }

    let source_len = source.len();
    let last_candidate = source_len - query.len();
    let mut i: usize = 0;
    while i <= last_candidate
        invariant
            obeys_concrete_eq::<T>(),
            0 < query@.len() <= source@.len(),
            source_len == source@.len(),
            last_candidate == source@.len() - query@.len(),
            i <= last_candidate + 1,
            forall|j: int| 0 <= j < i ==> !match_at(source@, query@, j),
        decreases last_candidate + 1 - i,
    {
        if window_matches(source, query, i) {
            return Some(i);
        }
        i = i + 1;
    }

    None
}

/// Splits `source` on the first occurrence of `delimiter` and returns
/// the view before the match and the view strictly after it, the
/// delimiter excluded from both; `None` when the delimiter does not
/// occur.
pub fn split_slice_once<'a, T: PartialEq>(source: &'a [T], delimiter: &'a [T]) -> (r: Option<
    (&'a [T], &'a [T]),
>)
    requires
        obeys_concrete_eq::<T>(),
    ensures
        match r {
            Some(parts) => {
                &&& parts.0@ + delimiter@ + parts.1@ == source@
                &&& match_at(source@, delimiter@, parts.0@.len() as int)
                &&& forall|j: int| 0 <= j < parts.0@.len() ==> !match_at(source@, delimiter@, j)
            },
            None => !occurs_in(source@, delimiter@),
        },
{
    match find_first_index_in_slice(source, delimiter) {
        None => None,
        Some(first_idx) => {
            let source_len = source.len();
            proof {
                assert(first_idx + delimiter@.len() <= source@.len());
            }
            let prefix = &source[0..first_idx];
            let suffix = &source[first_idx + delimiter.len()..source_len];
            proof {
                assert(prefix@ + delimiter@ + suffix@ =~= source@);
            }
            Some((prefix, suffix))
        },
    }
}

/// Law: after a successful split, the delimiter does not occur inside
/// the returned prefix — it has no match strictly before the one the
/// split was made on. A non-empty delimiter is required, since the
/// empty sequence occurs in every sequence, the prefix included.
pub proof fn lemma_delimiter_absent_from_prefix<T>(
    source: Seq<T>,
    delimiter: Seq<T>,
    prefix: Seq<T>,
    suffix: Seq<T>,
)
    requires
        delimiter.len() > 0,
        prefix + delimiter + suffix == source,
        forall|j: int| 0 <= j < prefix.len() ==> !match_at(source, delimiter, j),
    ensures
        !occurs_in(prefix, delimiter),
{
    assert forall|i: int| !match_at(prefix, delimiter, i) by {
        if match_at(prefix, delimiter, i) {
            assert forall|k: int| 0 <= k < delimiter.len() implies source[i + k] == #[trigger] prefix[i
                + k] by {
                assert(source[i + k] == (prefix + delimiter + suffix)[i + k]);
            }
            assert(source.subrange(i, i + delimiter.len()) =~= prefix.subrange(
                i,
                i + delimiter.len(),
            ));
            assert(match_at(source, delimiter, i));
            assert(i < prefix.len());
        }
    }
}

/// Writes each element of `source` unchanged into the same position of
/// `target`, which must be at least as long as `source`. Elements of
/// `target` past `source.len()` keep their values.
pub fn copy_slice_into<T: Copy>(source: &[T], target: &mut [T])
    requires
        source@.len() <= old(target)@.len(),
    ensures
        final(target)@.len() == old(target)@.len(),
        forall|i: int| 0 <= i < source@.len() ==> final(target)@[i] == source@[i],
        forall|i: int|
            source@.len() <= i < old(target)@.len() ==> final(target)@[i] == old(target)@[i],
{
    let identity = |item: T| -> (r: T)
        ensures
            r == item,
        { item };
    map_slice_into(source, target, identity);
}

/// Writes `converter(source[i])` into `target[i]` for every valid
/// `source` index. `target` must be at least as long as `source`; the
/// elements of `target` past `source.len()` keep their values.
pub fn map_slice_into<TIn: Copy, TOut, F: Fn(TIn) -> TOut>(
    source: &[TIn],
    target: &mut [TOut],
    converter: F,
)
    requires
        source@.len() <= old(target)@.len(),
        forall|i: int| 0 <= i < source@.len() ==> call_requires(converter, (source@[i],)),
    ensures
        final(target)@.len() == old(target)@.len(),
        forall|i: int|
            0 <= i < source@.len() ==> call_ensures(
                converter,
                (source@[i],),
                #[trigger] final(target)@[i],
            ),
        forall|i: int|
            source@.len() <= i < old(target)@.len() ==> final(target)@[i] == old(target)@[i],
{
    let mut i: usize = 0;
    while i < source.len()
        invariant
            i <= source@.len(),
            source@.len() <= target@.len(),
            target@.len() == old(target)@.len(),
            forall|k: int| 0 <= k < source@.len() ==> call_requires(converter, (source@[k],)),
            forall|k: int|
                0 <= k < i ==> call_ensures(converter, (source@[k],), #[trigger] target@[k]),
            forall|k: int|
                source@.len() <= k < old(target)@.len() ==> target@[k] == old(target)@[k],
        decreases source@.len() - i,
    {
        let converted = converter(source[i]);
        target[i] = converted;
        i = i + 1;
    }
}

/// Copies the first `target_end_idx - target_start_idx + 1` elements of
/// `source` into `target[target_start_idx..=target_end_idx]`. Note
/// that the end index is **inclusive**: the element at
/// `target_end_idx` is written. The caller guarantees that the range
/// lies within `target` and that `source` holds enough elements.
pub fn copy_into_slice<T: Copy>(
    target: &mut [T],
    source: &[T],
    target_start_idx: usize,
    target_end_idx: usize,
)
    requires
        target_start_idx <= target_end_idx,
        target_end_idx < old(target)@.len(),
        target_end_idx - target_start_idx + 1 <= source@.len(),
    ensures
        final(target)@.len() == old(target)@.len(),
        forall|k: int|
            target_start_idx <= k <= target_end_idx ==> final(target)@[k] == source@[k
                - target_start_idx],
        forall|k: int|
            0 <= k < old(target)@.len() && !(target_start_idx <= k <= target_end_idx)
                ==> final(target)@[k] == old(target)@[k],
{
    let mut i_source: usize = 0;
    let mut i_target: usize = target_start_idx;

    while i_target <= target_end_idx
        invariant
            target_start_idx <= i_target <= target_end_idx + 1,
            i_source == i_target - target_start_idx,
            target_end_idx < target@.len(),
            target@.len() == old(target)@.len(),
            target_end_idx - target_start_idx + 1 <= source@.len(),
            forall|k: int|
                target_start_idx <= k < i_target ==> target@[k] == source@[k - target_start_idx],
            forall|k: int|
                0 <= k < target@.len() && !(target_start_idx <= k <= target_end_idx)
                    ==> target@[k] == old(target)@[k],
        decreases target_end_idx + 1 - i_target,
    {
        target[i_target] = source[i_source];
        i_source = i_source + 1;
        i_target = i_target + 1;
    }
}

/// The call of the stop predicate for source index `i` is allowed: its
/// own precondition holds for the element at `i` and the two cursor
/// positions that go with it.
pub open spec fn until_call_allowed<T, F: Fn(T, usize, usize) -> bool>(
    until: F,
    source: Seq<T>,
    target_start_idx: usize,
    i: int,
) -> bool {
    call_requires(until, (source[i], (target_start_idx + i) as usize, i as usize))
}

/// The stop predicate is certain to fire at source index `n`: every
/// return it allows for the element at `n`, with the matching cursor
/// positions, is `true`.
pub open spec fn until_fires_at<T, F: Fn(T, usize, usize) -> bool>(
    until: F,
    source: Seq<T>,
    target_start_idx: usize,
    n: int,
) -> bool {
    forall|ret: bool|
        #[trigger] call_ensures(until, (source[n], (target_start_idx + n) as usize, n as usize), ret)
            ==> ret
}

/// `n` witnesses that the copy terminates in bounds: `n` is a valid
/// source index reachable without either cursor leaving its buffer,
/// every predicate call up to `n` is allowed, and at `n` the predicate
/// is certain to fire.
pub open spec fn until_copy_bounded<T, F: Fn(T, usize, usize) -> bool>(
    until: F,
    source: Seq<T>,
    target_start_idx: usize,
    target_len: int,
    n: int,
) -> bool {
    &&& 0 <= n < source.len()
    &&& target_start_idx + n <= target_len
    &&& forall|i: int| 0 <= i <= n ==> #[trigger] until_call_allowed(until, source, target_start_idx, i)
    &&& until_fires_at(until, source, target_start_idx, n)
}

/// Copies elements of `source`, read from index 0, into `target`
/// beginning at `target_start_idx`, both cursors advancing together,
/// until `until(element, target index, source index)` returns true;
/// the element the predicate fires on is **not** written. The caller
/// guarantees — by the witness `n` in the precondition — that the
/// predicate fires before either cursor runs out of bounds; there is
/// no implicit stop on source exhaustion.
pub fn copy_into_slice_until<T: Copy, F: Fn(T, usize, usize) -> bool>(
    target: &mut [T],
    source: &[T],
    target_start_idx: usize,
    until: F,
)
    requires
        exists|n: int|
            until_copy_bounded(until, source@, target_start_idx, old(target)@.len() as int, n),
    ensures
        final(target)@.len() == old(target)@.len(),
        exists|stop: int|
            (#[trigger] until_call_allowed(until, source@, target_start_idx, stop)) && {
                &&& 0 <= stop < source@.len()
                &&& target_start_idx + stop <= old(target)@.len()
                &&& call_ensures(
                    until,
                    (source@[stop], (target_start_idx + stop) as usize, stop as usize),
                    true,
                )
                &&& forall|i: int|
                    0 <= i < stop ==> call_ensures(
                        until,
                        (source@[i], (target_start_idx + i) as usize, i as usize),
                        false,
                    )
                &&& forall|k: int|
                    target_start_idx <= k < target_start_idx + stop ==> final(target)@[k]
                        == source@[k - target_start_idx]
                &&& forall|k: int|
                    0 <= k < old(target)@.len() && !(target_start_idx <= k < target_start_idx
                        + stop) ==> final(target)@[k] == old(target)@[k]
            },
{
    let ghost n: int = choose|n: int|
        until_copy_bounded(until, source@, target_start_idx, old(target)@.len() as int, n);

    let mut i_target: usize = target_start_idx;
    let mut i_source: usize = 0;

    loop
        invariant
            until_copy_bounded(until, source@, target_start_idx, old(target)@.len() as int, n),
            i_source <= n,
            i_target == target_start_idx + i_source,
            target@.len() == old(target)@.len(),
            forall|i: int|
                0 <= i < i_source ==> call_ensures(
                    until,
                    (source@[i], (target_start_idx + i) as usize, i as usize),
                    false,
                ),
            forall|k: int|
                target_start_idx <= k < i_target ==> target@[k] == source@[k - target_start_idx],
            forall|k: int|
                0 <= k < target@.len() && !(target_start_idx <= k < i_target) ==> target@[k]
                    == old(target)@[k],
        ensures
            i_source <= n,
            i_target == target_start_idx + i_source,
            target@.len() == old(target)@.len(),
            call_ensures(
                until,
                (source@[i_source as int], (target_start_idx + i_source) as usize, i_source),
                true,
            ),
            forall|i: int|
                0 <= i < i_source ==> call_ensures(
                    until,
                    (source@[i], (target_start_idx + i) as usize, i as usize),
                    false,
                ),
            forall|k: int|
                target_start_idx <= k < i_target ==> target@[k] == source@[k - target_start_idx],
            forall|k: int|
                0 <= k < target@.len() && !(target_start_idx <= k < i_target) ==> target@[k]
                    == old(target)@[k],
        decreases n - i_source,
    {
        let item = source[i_source];

        proof {
            assert(until_call_allowed(until, source@, target_start_idx, i_source as int));
            assert((target_start_idx + i_source as int) as usize == i_target);
            assert((i_source as int) as usize == i_source);
        }
        if until(item, i_target, i_source) {
            break;
        }
        proof {
            // Were this the witness index, the predicate would have fired.
            assert(i_source < n);
        }

        target[i_target] = item;
        i_target = i_target + 1;
        i_source = i_source + 1;
    }

    proof {
        let stop = i_source as int;
        assert(until_call_allowed(until, source@, target_start_idx, stop));
        assert(0 <= stop < source@.len());
        assert((target_start_idx + stop) as usize == i_target);
        assert(stop as usize == i_source);
    }
}

/// Maps each byte of `source` to the unicode scalar value with the
/// same numeric code — a Latin-1 range widening of individual bytes,
/// **not** UTF-8 decoding — writing into the same positions of
/// `target`, which must be at least as long as `source`.
pub fn u8_slice_into_char_slice(source: &[u8], target: &mut [char])
    requires
        source@.len() <= old(target)@.len(),
    ensures
        final(target)@.len() == old(target)@.len(),
        forall|i: int| 0 <= i < source@.len() ==> final(target)@[i] == source@[i] as char,
        forall|i: int|
            source@.len() <= i < old(target)@.len() ==> final(target)@[i] == old(target)@[i],
{
    let mut i: usize = 0;
    while i < source.len()
        invariant
            i <= source@.len(),
            source@.len() <= target@.len(),
            target@.len() == old(target)@.len(),
            forall|k: int| 0 <= k < i ==> target@[k] == source@[k] as char,
            forall|k: int|
                source@.len() <= k < old(target)@.len() ==> target@[k] == old(target)@[k],
        decreases source@.len() - i,
    {
        target[i] = source[i] as char;
        i = i + 1;
    }
}

} // verus!
