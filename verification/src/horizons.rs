//! The vector-table payload of an ephemeris reply.
//!
//! A reply's payload carries a CSV-like table of position rows between a
//! `$$SOE` and a `$$EOE` marker. This module locates the first occurrence of
//! each marker and hands back the trimmed, nonempty lines between them;
//! everything around the markers is ignored. The reply envelope itself is
//! decoded by the caller into [`HorizonsJson`].

use vstd::prelude::*;

verus! {

/// The decoded JSON envelope of an ephemeris reply: an optional error
/// message and the payload text the table is cut from.
pub struct HorizonsJson {
    pub error: Option<String>,
    pub result: String,
}

/// Why a payload yields no vector table.
#[derive(Clone, Copy, PartialEq, Eq, Structural, Debug)]
pub enum TableError {
    /// The start-of-entries marker does not occur.
    MissingSoe,
    /// The end-of-entries marker does not occur.
    MissingEoe,
    /// The end marker occurs at or before the start marker.
    MarkersOutOfOrder,
}

/// The pattern occurs in `s` at exactly position `i`.
pub open spec fn matches_at(s: Seq<u8>, pat: Seq<u8>, i: int) -> bool {
    0 <= i && i + pat.len() <= s.len() && s.subrange(i, i + pat.len()) == pat
}

/// The pattern occurs somewhere in `s`.
pub open spec fn has_pattern(s: Seq<u8>, pat: Seq<u8>) -> bool {
    exists|i: int| matches_at(s, pat, i)
}

/// The pattern occurs at `i` and nowhere earlier.
pub open spec fn is_first_match(s: Seq<u8>, pat: Seq<u8>, i: int) -> bool {
    matches_at(s, pat, i) && forall|j: int| 0 <= j < i ==> !matches_at(s, pat, j)
}

/// A byte the line trim strips: space, tab, or carriage return.
pub open spec fn is_space(b: u8) -> bool {
    b == 32 || b == 9 || b == 13
}

/// The start-of-entries marker, as bytes.
pub fn marker_soe() -> (m: Vec<u8>)
    ensures
        m@ == soe_bytes(),
{
    let v = vec![36u8, 36u8, 83u8, 79u8, 69u8];
    proof {
        assert(v@ =~= soe_bytes());
    }
    v
}

/// The end-of-entries marker, as bytes.
pub fn marker_eoe() -> (m: Vec<u8>)
    ensures
        m@ == eoe_bytes(),
{
    let v = vec![36u8, 36u8, 69u8, 79u8, 69u8];
    proof {
        assert(v@ =~= eoe_bytes());
    }
    v
}

pub open spec fn soe_bytes() -> Seq<u8> {
    seq![36u8, 36u8, 83u8, 79u8, 69u8]
}

pub open spec fn eoe_bytes() -> Seq<u8> {
    seq![36u8, 36u8, 69u8, 79u8, 69u8]
}

/// Whether the pattern sits at position `i` of `s`.
fn pattern_at(s: &Vec<u8>, pat: &Vec<u8>, i: usize) -> (b: bool)
    requires
        i + pat@.len() <= s@.len(),
    ensures
        b == matches_at(s@, pat@, i as int),
{
    let slen = s.len();
    let mut k: usize = 0;
    while k < pat.len()
        invariant
            k <= pat@.len(),
            i + pat@.len() <= s@.len(),
            slen == s@.len(),
            forall|t: int| 0 <= t < k ==> s@[i + t] == pat@[t],
        decreases pat@.len() - k,
    {
        if s[i + k] != pat[k] {
            proof {
                assert(s@.subrange(i as int, i + pat@.len())[k as int] == s@[i + k]);
                assert(s@.subrange(i as int, i + pat@.len()) != pat@);
            }
            return false;
        }
        k = k + 1;
    }
    proof {
        assert(s@.subrange(i as int, i + pat@.len()) =~= pat@);
    }
    true
}

/// The position of the first occurrence of the pattern in `s`, if any.
fn find_pattern(s: &Vec<u8>, pat: &Vec<u8>) -> (r: Option<usize>)
    requires
        1 <= pat@.len(),
    ensures
        match r {
            Some(i) => is_first_match(s@, pat@, i as int),
            None => !has_pattern(s@, pat@),
        },
{
    if s.len() < pat.len() {
        return None;
    }
    let end = s.len() - pat.len();
    let mut i: usize = 0;
    while i <= end
        invariant
            end == s@.len() - pat@.len(),
            end < usize::MAX,
            i <= end + 1,
            forall|j: int| 0 <= j < i ==> !matches_at(s@, pat@, j),
        decreases end + 1 - i,
    {
        if pattern_at(s, pat, i) {
            return Some(i);
        }
        i = i + 1;
    }
    None
}

/// Every byte of the result is a line's content: nonempty, and neither its
/// first nor its last byte is trimmable space.
pub open spec fn is_clean_line(line: Seq<u8>) -> bool {
    &&& line.len() > 0
    &&& !is_space(line[0])
    &&& !is_space(line[line.len() - 1])
    &&& forall|t: int| 0 <= t < line.len() ==> line[t] != 10
}

/// The line with leading trimmable space removed.
pub open spec fn spec_trim_start(s: Seq<u8>) -> Seq<u8>
    decreases s.len(),
{
    if s.len() > 0 && is_space(s[0]) {
        spec_trim_start(s.drop_first())
    } else {
        s
    }
}

/// The line with trailing trimmable space removed.
pub open spec fn spec_trim_end(s: Seq<u8>) -> Seq<u8>
    decreases s.len(),
{
    if s.len() > 0 && is_space(s[s.len() - 1]) {
        spec_trim_end(s.drop_last())
    } else {
        s
    }
}

/// The line with trimmable space removed from both ends.
pub open spec fn spec_trim(s: Seq<u8>) -> Seq<u8> {
    spec_trim_end(spec_trim_start(s))
}

/// What a finished line contributes to the table: its trimmed content, or
/// nothing when the trim leaves it empty.
pub open spec fn spec_push_clean(cur: Seq<u8>) -> Seq<Seq<u8>> {
    if spec_trim(cur).len() == 0 {
        seq![]
    } else {
        seq![spec_trim(cur)]
    }
}

/// The trimmed, nonempty lines of `s`, continued from a partially collected
/// line `cur`: lines split on the newline byte, in order.
pub open spec fn spec_clean_lines_from(s: Seq<u8>, cur: Seq<u8>) -> Seq<Seq<u8>>
    decreases s.len(),
{
    if s.len() == 0 {
        spec_push_clean(cur)
    } else if s[0] == 10 {
        spec_push_clean(cur) + spec_clean_lines_from(s.drop_first(), seq![])
    } else {
        spec_clean_lines_from(s.drop_first(), cur.push(s[0]))
    }
}

/// The trimmed, nonempty lines of a byte region, split on newline, in the
/// region's order.
pub open spec fn spec_clean_lines(s: Seq<u8>) -> Seq<Seq<u8>> {
    spec_clean_lines_from(s, seq![])
}

/// The region of the payload the table lines are cut from: strictly between
/// the start marker and the end marker.
pub open spec fn spec_table_region(s: Seq<u8>, so: int, eo: int) -> Seq<u8> {
    s.subrange(
        if so + 5 <= eo {
            so + 5
        } else {
            eo
        },
        eo,
    )
}

/// The contents of the collected lines.
pub open spec fn line_views(lines: Seq<Vec<u8>>) -> Seq<Seq<u8>> {
    lines.map_values(|l: Vec<u8>| l@)
}

/// A prefix of trimmable space is exactly what the start trim removes.
proof fn lemma_trim_start_at(s: Seq<u8>, a: int)
    requires
        0 <= a <= s.len(),
        forall|j: int| 0 <= j < a ==> is_space(#[trigger] s[j]),
        a == s.len() || !is_space(s[a]),
    ensures
        spec_trim_start(s) == s.subrange(a, s.len() as int),
    decreases a,
{
    if a == 0 {
        assert(spec_trim_start(s) == s);
        assert(s.subrange(0, s.len() as int) =~= s);
    } else {
        assert(is_space(s[0]));
        let t = s.drop_first();
        assert forall|j: int| 0 <= j < a - 1 implies is_space(#[trigger] t[j]) by {
            assert(t[j] == s[j + 1]);
        }
        if a - 1 < t.len() {
            assert(t[a - 1] == s[a]);
        }
        lemma_trim_start_at(t, a - 1);
        assert(t.subrange(a - 1, t.len() as int) =~= s.subrange(a, s.len() as int));
    }
}

/// A suffix of trimmable space is exactly what the end trim removes.
proof fn lemma_trim_end_at(s: Seq<u8>, b: int)
    requires
        0 <= b <= s.len(),
        forall|j: int| b <= j < s.len() ==> is_space(#[trigger] s[j]),
        b == 0 || !is_space(s[b - 1]),
    ensures
        spec_trim_end(s) == s.subrange(0, b),
    decreases s.len() - b,
{
    if b == s.len() {
        assert(spec_trim_end(s) == s);
        assert(s.subrange(0, b) =~= s);
    } else {
        assert(is_space(s[s.len() - 1]));
        let t = s.drop_last();
        assert forall|j: int| b <= j < t.len() implies is_space(#[trigger] t[j]) by {
            assert(t[j] == s[j]);
        }
        if b > 0 {
            assert(t[b - 1] == s[b - 1]);
        }
        lemma_trim_end_at(t, b);
        assert(t.subrange(0, b) =~= s.subrange(0, b));
    }
}

/// Pushing a collected line appends its content to the views.
proof fn lemma_line_views_push(lines: Seq<Vec<u8>>, t: Vec<u8>)
    ensures
        line_views(lines.push(t)) == line_views(lines).push(t@),
{
    assert(line_views(lines.push(t)) =~= line_views(lines).push(t@));
}

/// Strip trimmable space from both ends of a collected line.
fn trim_bytes(v: &Vec<u8>) -> (r: Vec<u8>)
    ensures
        r@ == spec_trim(v@),
        r@.len() == 0 || (!is_space(r@[0]) && !is_space(r@[r@.len() - 1])),
        forall|t: int|
            0 <= t < r@.len() ==> exists|u: int| 0 <= u < v@.len() && #[trigger] r@[t] == v@[u],
{
    let mut start: usize = 0;
    while start < v.len() && (v[start] == 32 || v[start] == 9 || v[start] == 13)
        invariant
            start <= v@.len(),
            forall|j: int| 0 <= j < start ==> is_space(#[trigger] v@[j]),
        decreases v@.len() - start,
    {
        start = start + 1;
    }
    let mut stop: usize = v.len();
    while stop > start && (v[stop - 1] == 32 || v[stop - 1] == 9 || v[stop - 1] == 13)
        invariant
            start <= stop <= v@.len(),
            forall|j: int| stop <= j < v@.len() ==> is_space(#[trigger] v@[j]),
        decreases stop,
    {
        stop = stop - 1;
    }
    proof {
        lemma_trim_start_at(v@, start as int);
        let t = v@.subrange(start as int, v@.len() as int);
        assert forall|j: int| stop - start <= j < t.len() implies is_space(#[trigger] t[j]) by {
            assert(t[j] == v@[start + j]);
        }
        if stop > start {
            assert(t[stop - start - 1] == v@[stop - 1]);
        }
        lemma_trim_end_at(t, stop - start);
        assert(t.subrange(0, stop - start) =~= v@.subrange(start as int, stop as int));
    }
    let mut r: Vec<u8> = Vec::new();
    let mut k: usize = start;
    while k < stop
        invariant
            start <= k <= stop <= v@.len(),
            r@.len() == k - start,
            forall|t: int| 0 <= t < r@.len() ==> r@[t] == v@[start + t],
            start < stop ==> !is_space(v@[start as int]),
            start < stop ==> !is_space(v@[stop - 1]),
            spec_trim(v@) == v@.subrange(start as int, stop as int),
        decreases stop - k,
    {
        r.push(v[k]);
        k = k + 1;
    }
    proof {
        assert(r@ =~= v@.subrange(start as int, stop as int));
    }
    r
}

/// Cut the vector table out of a payload: the trimmed, nonempty lines
/// strictly between the first `$$SOE` and the first `$$EOE` marker. The
/// extraction succeeds exactly when both markers occur with the start
/// marker strictly first; each error names the condition that failed.
pub fn extract_table_lines(result_text: &Vec<u8>) -> (r: Result<Vec<Vec<u8>>, TableError>)
    ensures
        r is Err ==> (r == Err::<Vec<Vec<u8>>, TableError>(TableError::MissingSoe) <==> !has_pattern(
            result_text@,
            soe_bytes(),
        )),
        r == Err::<Vec<Vec<u8>>, TableError>(TableError::MissingEoe) ==> has_pattern(
            result_text@,
            soe_bytes(),
        ) && !has_pattern(result_text@, eoe_bytes()),
        r == Err::<Vec<Vec<u8>>, TableError>(TableError::MarkersOutOfOrder) ==> exists|so: int, eo: int|
            is_first_match(result_text@, soe_bytes(), so) && is_first_match(
                result_text@,
                eoe_bytes(),
                eo,
            ) && eo <= so,
        match r {
            Ok(lines) => exists|so: int, eo: int|
                is_first_match(result_text@, soe_bytes(), so) && is_first_match(
                    result_text@,
                    eoe_bytes(),
                    eo,
                ) && so < eo && line_views(lines@) == spec_clean_lines(
                    spec_table_region(result_text@, so, eo),
                ),
            Err(_) => true,
        },
        r is Ok <==> (has_pattern(result_text@, soe_bytes()) && has_pattern(
            result_text@,
            eoe_bytes(),
        ) && (forall|so: int, eo: int|
            is_first_match(result_text@, soe_bytes(), so) && is_first_match(
                result_text@,
                eoe_bytes(),
                eo,
            ) ==> so < eo)),
        match r {
            Ok(lines) => forall|k: int|
                0 <= k < lines@.len() ==> is_clean_line(#[trigger] lines@[k]@),
            Err(_) => true,
        },
{
    let soe = marker_soe();
    let eoe = marker_eoe();
    let so = match find_pattern(result_text, &soe) {
        Some(i) => i,
        None => {
            return Err(TableError::MissingSoe);
        },
    };
    let eo = match find_pattern(result_text, &eoe) {
        Some(i) => i,
        None => {
            return Err(TableError::MissingEoe);
        },
    };
    if eo <= so {
        return Err(TableError::MarkersOutOfOrder);
    }
    let start = so + 5;
    let mut lines: Vec<Vec<u8>> = Vec::new();
    let mut cur: Vec<u8> = Vec::new();
    let mut idx: usize = if start < eo {
        start
    } else {
        eo
    };
    let ghost region = spec_table_region(result_text@, so as int, eo as int);
    proof {
        assert(region =~= result_text@.subrange(idx as int, eo as int));
        assert(line_views(lines@) =~= Seq::<Seq<u8>>::empty());
        assert(Seq::<Seq<u8>>::empty() + spec_clean_lines_from(
            result_text@.subrange(idx as int, eo as int),
            cur@,
        ) =~= spec_clean_lines(region));
    }
    while idx < eo
        invariant
            idx <= eo,
            eo <= result_text@.len(),
            region == spec_table_region(result_text@, so as int, eo as int),
            forall|k: int| 0 <= k < lines@.len() ==> is_clean_line(#[trigger] lines@[k]@),
            forall|t: int| 0 <= t < cur@.len() ==> cur@[t] != 10,
            line_views(lines@) + spec_clean_lines_from(
                result_text@.subrange(idx as int, eo as int),
                cur@,
            ) == spec_clean_lines(region),
        decreases eo - idx,
    {
        let ghost rem = result_text@.subrange(idx as int, eo as int);
        let b = result_text[idx];
        proof {
            assert(rem[0] == b);
            assert(rem.drop_first() =~= result_text@.subrange(idx + 1, eo as int));
        }
        if b == 10 {
            let t = trim_bytes(&cur);
            proof {
                assert(spec_clean_lines_from(rem, cur@) == spec_push_clean(cur@)
                    + spec_clean_lines_from(rem.drop_first(), seq![]));
            }
            if t.len() > 0 {
                proof {
                    assert(is_clean_line(t@));
                    assert(spec_push_clean(cur@) =~= seq![t@]);
                    lemma_line_views_push(lines@, t);
                    assert(line_views(lines@).push(t@) =~= line_views(lines@) + seq![t@]);
                    assert((line_views(lines@) + seq![t@]) + spec_clean_lines_from(
                        rem.drop_first(),
                        seq![],
                    ) =~= line_views(lines@) + (seq![t@] + spec_clean_lines_from(
                        rem.drop_first(),
                        seq![],
                    )));
                }
                lines.push(t);
            } else {
                proof {
                    assert(spec_push_clean(cur@) =~= Seq::<Seq<u8>>::empty());
                    assert(Seq::<Seq<u8>>::empty() + spec_clean_lines_from(
                        rem.drop_first(),
                        seq![],
                    ) =~= spec_clean_lines_from(rem.drop_first(), seq![]));
                }
            }
            cur = Vec::new();
        } else {
            proof {
                assert(spec_clean_lines_from(rem, cur@) == spec_clean_lines_from(
                    rem.drop_first(),
                    cur@.push(b),
                ));
            }
            cur.push(b);
        }
        idx = idx + 1;
    }
    proof {
        assert(result_text@.subrange(eo as int, eo as int) =~= Seq::<u8>::empty());
        assert(spec_clean_lines_from(Seq::<u8>::empty(), cur@) == spec_push_clean(cur@));
    }
    let t = trim_bytes(&cur);
    if t.len() > 0 {
        proof {
            assert(is_clean_line(t@));
            assert(spec_push_clean(cur@) =~= seq![t@]);
            lemma_line_views_push(lines@, t);
            assert(line_views(lines@).push(t@) =~= line_views(lines@) + seq![t@]);
        }
        lines.push(t);
    } else {
        proof {
            assert(spec_push_clean(cur@) =~= Seq::<Seq<u8>>::empty());
            assert(line_views(lines@) + Seq::<Seq<u8>>::empty() =~= line_views(lines@));
        }
    }
    proof {
        lemma_first_match_unique(result_text@, soe_bytes(), so as int);
        lemma_first_match_unique(result_text@, eoe_bytes(), eo as int);
        assert(line_views(lines@) == spec_clean_lines(region));
    }
    Ok(lines)
}

/// A first match pins down every other first match.
proof fn lemma_first_match_unique(s: Seq<u8>, pat: Seq<u8>, i: int)
    requires
        is_first_match(s, pat, i),
    ensures
        forall|j: int| is_first_match(s, pat, j) ==> j == i,
{
    assert forall|j: int| is_first_match(s, pat, j) implies j == i by {
        if j < i {
            assert(matches_at(s, pat, j));
        } else if j > i {
            assert(matches_at(s, pat, i));
        }
    }
}

} // verus!
