//! Positional change detection between two states of a text.

use vstd::prelude::*;

verus! {

/// A half-open range `[start_char, end_char)` of character positions that differ
/// between two states of a text.
#[derive(Debug, Clone, Copy, PartialEq, Eq, Structural)]
pub struct DirtyRegion {
    pub start_char: usize,
    pub end_char: usize,
    pub needs_update: bool,
}

/// The longer of the two lengths: the number of positions a diff walks.
pub open spec fn span_len(old_text: Seq<char>, new_text: Seq<char>) -> int {
    if old_text.len() >= new_text.len() {
        old_text.len() as int
    } else {
        new_text.len() as int
    }
}

/// The shorter of the two lengths: the positions that both texts have.
pub open spec fn common_len(old_text: Seq<char>, new_text: Seq<char>) -> int {
    if old_text.len() <= new_text.len() {
        old_text.len() as int
    } else {
        new_text.len() as int
    }
}

/// Position `i` is dirty when the two texts disagree there; a position that only
/// one of them has counts as a disagreement.
pub open spec fn is_dirty(old_text: Seq<char>, new_text: Seq<char>, i: int) -> bool {
    0 <= i < span_len(old_text, new_text) && (i >= old_text.len() || i >= new_text.len()
        || old_text[i] != new_text[i])
}

/// The first clean position at or after `i`, or the end of the span.
pub open spec fn run_end(old_text: Seq<char>, new_text: Seq<char>, i: int) -> int
    decreases span_len(old_text, new_text) - i,
{
    if is_dirty(old_text, new_text, i) {
        run_end(old_text, new_text, i + 1)
    } else {
        i
    }
}

/// A run of dirty positions starts at `i`.
pub open spec fn starts_run(old_text: Seq<char>, new_text: Seq<char>, i: int) -> bool {
    is_dirty(old_text, new_text, i) && !is_dirty(old_text, new_text, i - 1)
}

/// One region for each run of dirty positions that starts at or after `i`, in
/// increasing order. Each region reaches from the start of its run to the first
/// clean position behind it.
pub open spec fn regions_from(old_text: Seq<char>, new_text: Seq<char>, i: int) -> Seq<DirtyRegion>
    decreases span_len(old_text, new_text) - i,
{
    if i < 0 || i >= span_len(old_text, new_text) {
        Seq::empty()
    } else if starts_run(old_text, new_text, i) {
        seq![
            (DirtyRegion {
                start_char: i as usize,
                end_char: run_end(old_text, new_text, i) as usize,
                needs_update: true,
            }),
        ] + regions_from(old_text, new_text, i + 1)
    } else {
        regions_from(old_text, new_text, i + 1)
    }
}

/// The dirty regions between two texts: every maximal run of dirty positions,
/// each as one region, in increasing order.
pub open spec fn diff_spec(old_text: Seq<char>, new_text: Seq<char>) -> Seq<DirtyRegion> {
    regions_from(old_text, new_text, 0)
}

/// `text` with the positions of `region` replaced by what `source` holds there.
/// Positions that `text` lacks are appended, positions that `source` lacks are
/// removed.
pub open spec fn splice(text: Seq<char>, region: DirtyRegion, source: Seq<char>) -> Seq<char> {
    let s = region.start_char as int;
    let e = region.end_char as int;
    let keep = if s <= text.len() { s } else { text.len() as int };
    let from = if s <= source.len() { s } else { source.len() as int };
    let to = if e <= source.len() { e } else { source.len() as int };
    let rest = if e <= text.len() { e } else { text.len() as int };
    if from <= to && keep <= rest {
        text.subrange(0, keep) + source.subrange(from, to) + text.subrange(rest, text.len() as int)
    } else {
        text
    }
}

/// `text` after each of `regions` has been replaced from `source`, first to last.
pub open spec fn patch(text: Seq<char>, regions: Seq<DirtyRegion>, source: Seq<char>) -> Seq<char>
    decreases regions.len(),
{
    if regions.len() == 0 {
        text
    } else {
        patch(splice(text, regions[0], source), regions.drop_first(), source)
    }
}

/// `run_end` stops inside the span, does not go backwards, and every position it
/// skipped is dirty.
pub proof fn lemma_run_end_bounds(old_text: Seq<char>, new_text: Seq<char>, i: int)
    requires
        0 <= i <= span_len(old_text, new_text),
    ensures
        i <= run_end(old_text, new_text, i) <= span_len(old_text, new_text),
        !is_dirty(old_text, new_text, run_end(old_text, new_text, i)),
        forall|j: int| i <= j < run_end(old_text, new_text, i) ==> is_dirty(old_text, new_text, j),
    decreases span_len(old_text, new_text) - i,
{
    if is_dirty(old_text, new_text, i) {
        lemma_run_end_bounds(old_text, new_text, i + 1);
    }
}

/// A run that reaches past the common part of the two texts goes on to the end
/// of the span.
pub proof fn lemma_run_end_tail(old_text: Seq<char>, new_text: Seq<char>, i: int)
    requires
        common_len(old_text, new_text) <= i <= span_len(old_text, new_text),
    ensures
        run_end(old_text, new_text, i) == span_len(old_text, new_text),
    decreases span_len(old_text, new_text) - i,
{
    if i < span_len(old_text, new_text) {
        lemma_run_end_tail(old_text, new_text, i + 1);
    }
}

/// No run starts strictly inside a run, so the regions behind a position of a
/// run are those behind the run's end.
pub proof fn lemma_regions_skip_run(old_text: Seq<char>, new_text: Seq<char>, i: int, e: int)
    requires
        0 < i <= e <= span_len(old_text, new_text),
        forall|j: int| i - 1 <= j < e ==> is_dirty(old_text, new_text, j),
    ensures
        regions_from(old_text, new_text, i) == regions_from(old_text, new_text, e),
    decreases e - i,
{
    if i < e {
        assert(is_dirty(old_text, new_text, i - 1));
        lemma_regions_skip_run(old_text, new_text, i + 1, e);
    }
}

proof fn lemma_patch_from(old_text: Seq<char>, new_text: Seq<char>, current: Seq<char>, i: int)
    requires
        0 <= i <= common_len(old_text, new_text) || i == span_len(old_text, new_text),
        0 <= i,
        is_dirty(old_text, new_text, i) ==> !is_dirty(old_text, new_text, i - 1),
        span_len(old_text, new_text) <= usize::MAX,
        i < span_len(old_text, new_text) ==> current.len() == old_text.len(),
        i < span_len(old_text, new_text) ==> current.subrange(0, i) == new_text.subrange(0, i),
        i < span_len(old_text, new_text) ==> current.subrange(i, current.len() as int)
            == old_text.subrange(i, old_text.len() as int),
        i == span_len(old_text, new_text) ==> current == new_text,
    ensures
        patch(current, regions_from(old_text, new_text, i), new_text) == new_text,
    decreases span_len(old_text, new_text) - i,
{
    let span = span_len(old_text, new_text);
    let common = common_len(old_text, new_text);
    if i >= span {
    } else if is_dirty(old_text, new_text, i) {
        let e = run_end(old_text, new_text, i + 1);
        lemma_run_end_bounds(old_text, new_text, i + 1);
        let region = DirtyRegion { start_char: i as usize, end_char: e as usize, needs_update: true };
        let rest = regions_from(old_text, new_text, e);
        let all = regions_from(old_text, new_text, i);
        assert(starts_run(old_text, new_text, i));
        lemma_regions_skip_run(old_text, new_text, i + 1, e);
        assert(all == seq![region] + rest);
        assert(all[0] == region);
        assert(all.drop_first() =~= rest);
        let next = splice(current, region, new_text);
        if e > common {
            if i + 1 <= common {
                // the run crossed the common part, so it runs to the end
                assert(!is_dirty(old_text, new_text, e));
                assert(e == span) by {
                    if e < span {
                        assert(is_dirty(old_text, new_text, e));
                    }
                }
            } else {
                lemma_run_end_tail(old_text, new_text, i + 1);
            }
            assert(e == span);
            assert(next =~= new_text);
        } else {
            assert(next.len() == old_text.len());
            assert(next.subrange(0, e) =~= new_text.subrange(0, e));
            let n = old_text.len() as int;
            assert(next.subrange(e, n) =~= current.subrange(i, n).subrange(e - i, n - i));
            assert(old_text.subrange(e, n) =~= old_text.subrange(i, n).subrange(e - i, n - i));
            if e == span {
                assert(next =~= new_text) by {
                    assert(next.subrange(0, e) == next);
                    assert(new_text.subrange(0, e) == new_text);
                }
            }
        }
        lemma_patch_from(old_text, new_text, next, e);
    } else {
        assert(i < common);
        let n = old_text.len() as int;
        assert(current[i] == old_text[i]) by {
            assert(current.subrange(i, n)[0] == old_text.subrange(i, n)[0]);
        }
        assert(current.subrange(0, i + 1) =~= current.subrange(0, i).push(current[i]));
        assert(new_text.subrange(0, i + 1) =~= new_text.subrange(0, i).push(new_text[i]));
        assert(current.subrange(i + 1, n) =~= current.subrange(i, n).subrange(1, n - i));
        assert(old_text.subrange(i + 1, n) =~= old_text.subrange(i, n).subrange(1, n - i));
        if i + 1 == span {
            assert(current =~= new_text) by {
                assert(current.subrange(0, i + 1) == current);
                assert(new_text.subrange(0, i + 1) == new_text);
            }
        }
        lemma_patch_from(old_text, new_text, current, i + 1);
    }
}

/// Round trip of the positional diff: replacing, in the old text, each dirty
/// region by what the new text holds at those positions gives the new text.
pub proof fn lemma_diff_round_trip(old_text: Seq<char>, new_text: Seq<char>)
    requires
        old_text.len() <= usize::MAX,
        new_text.len() <= usize::MAX,
    ensures
        patch(old_text, diff_spec(old_text, new_text), new_text) == new_text,
{
    if span_len(old_text, new_text) == 0 {
        assert(old_text =~= new_text);
    } else {
        assert(old_text.subrange(0, 0) =~= new_text.subrange(0, 0));
    }
    lemma_patch_from(old_text, new_text, old_text, 0);
}

/// Two texts have no dirty region exactly when they are equal.
pub proof fn lemma_diff_empty_iff_equal(old_text: Seq<char>, new_text: Seq<char>)
    ensures
        diff_spec(old_text, new_text).len() == 0 <==> old_text == new_text,
{
    lemma_clean_from(old_text, new_text, 0);
    if old_text == new_text {
        assert forall|j: int| 0 <= j < span_len(old_text, new_text) implies !is_dirty(
            old_text,
            new_text,
            j,
        ) by {}
    } else if forall|j: int| 0 <= j < span_len(old_text, new_text) ==> !is_dirty(old_text, new_text, j) {
        if old_text.len() != new_text.len() {
            assert(is_dirty(old_text, new_text, common_len(old_text, new_text)));
        }
        assert(old_text =~= new_text) by {
            assert forall|k: int| 0 <= k < old_text.len() implies old_text[k] == new_text[k] by {
                assert(!is_dirty(old_text, new_text, k));
            }
        }
    }
}

proof fn lemma_clean_from(old_text: Seq<char>, new_text: Seq<char>, i: int)
    requires
        0 <= i,
        !is_dirty(old_text, new_text, i - 1),
    ensures
        regions_from(old_text, new_text, i).len() == 0 <==> (forall|j: int|
            i <= j < span_len(old_text, new_text) ==> !is_dirty(old_text, new_text, j)),
    decreases span_len(old_text, new_text) - i,
{
    if i < span_len(old_text, new_text) {
        if is_dirty(old_text, new_text, i) {
            assert(starts_run(old_text, new_text, i));
        } else {
            lemma_clean_from(old_text, new_text, i + 1);
        }
    }
}

/// A run whose positions `[i, e)` are dirty and whose position `e` is clean ends
/// at `e`.
pub proof fn lemma_run_end_is(old_text: Seq<char>, new_text: Seq<char>, i: int, e: int)
    requires
        i <= e,
        forall|j: int| i <= j < e ==> is_dirty(old_text, new_text, j),
        !is_dirty(old_text, new_text, e),
    ensures
        run_end(old_text, new_text, i) == e,
    decreases e - i,
{
    if i < e {
        assert(is_dirty(old_text, new_text, i));
        lemma_run_end_is(old_text, new_text, i + 1, e);
    }
}

/// Compares two texts position by position and returns the maximal runs of
/// positions at which they differ. An insertion or deletion marks everything
/// behind it, because every later character has moved.
pub fn diff(old_text: &Vec<char>, new_text: &Vec<char>) -> (regions: Vec<DirtyRegion>)
    ensures
        regions@ == diff_spec(old_text@, new_text@),
{
    let old_len: usize = old_text.len();
    let new_len: usize = new_text.len();
    let span: usize = if old_len >= new_len { old_len } else { new_len };
    let mut regions: Vec<DirtyRegion> = Vec::new();
    let mut start: usize = 0;
    let mut in_dirty_region = false;
    let mut i: usize = 0;
    while i < span
        invariant
            old_len == old_text@.len(),
            new_len == new_text@.len(),
            span == span_len(old_text@, new_text@),
            0 <= i <= span,
            in_dirty_region ==> start < i && starts_run(old_text@, new_text@, start as int),
            in_dirty_region ==> forall|j: int| start <= j < i ==> is_dirty(old_text@, new_text@, j),
            in_dirty_region ==> diff_spec(old_text@, new_text@) == regions@ + regions_from(
                old_text@,
                new_text@,
                start as int,
            ),
            !in_dirty_region ==> !is_dirty(old_text@, new_text@, i - 1),
            !in_dirty_region ==> diff_spec(old_text@, new_text@) == regions@ + regions_from(
                old_text@,
                new_text@,
                i as int,
            ),
        decreases span - i,
    {
        let differs = i >= old_len || i >= new_len || old_text[i] != new_text[i];
        assert(differs == is_dirty(old_text@, new_text@, i as int));
        if differs {
            if !in_dirty_region {
                start = i;
                in_dirty_region = true;
            }
        } else if in_dirty_region {
            let ghost before = regions@;
            regions.push(DirtyRegion { start_char: start, end_char: i, needs_update: true });
            in_dirty_region = false;
            proof {
                lemma_run_end_is(old_text@, new_text@, start as int, i as int);
                lemma_regions_skip_run(old_text@, new_text@, start + 1, i as int);
                assert(regions_from(old_text@, new_text@, i as int) == regions_from(
                    old_text@,
                    new_text@,
                    i + 1,
                ));
                assert(regions@ + regions_from(old_text@, new_text@, i + 1) =~= before
                    + regions_from(old_text@, new_text@, start as int));
            }
        }
        i += 1;
    }
    assert(regions_from(old_text@, new_text@, span as int) =~= Seq::empty());
    if in_dirty_region {
        let ghost before = regions@;
        regions.push(DirtyRegion { start_char: start, end_char: span, needs_update: true });
        proof {
            lemma_run_end_is(old_text@, new_text@, start as int, span as int);
            lemma_regions_skip_run(old_text@, new_text@, start + 1, span as int);
            assert(regions@ =~= before + regions_from(old_text@, new_text@, start as int));
        }
    } else {
        assert(regions@ =~= regions@ + Seq::<DirtyRegion>::empty());
    }
    regions
}

} // verus!
