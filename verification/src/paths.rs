//! The path grammar: `segment("::"segment)*`, each segment a non-empty run
//! of lowercase ASCII letters, digits and underscore that neither starts nor
//! ends with an underscore.

use vstd::prelude::*;

verus! {

/// Characters allowed inside a path segment.
pub open spec fn is_path_char(c: char) -> bool {
    ('a' <= c && c <= 'z') || ('0' <= c && c <= '9') || c == '_'
}

/// A well-formed segment: non-empty, made of path characters, and neither
/// starting nor ending with an underscore.
pub open spec fn valid_segment(s: Seq<char>) -> bool {
    &&& s.len() > 0
    &&& s[0] != '_'
    &&& s[s.len() - 1] != '_'
    &&& forall|i: int| 0 <= i < s.len() ==> is_path_char(#[trigger] s[i])
}

/// The segments of `s`, split on each occurrence of the two-character
/// separator `"::"`, scanning from the left. The empty string has one empty
/// segment; a trailing separator yields a trailing empty segment.
pub open spec fn segments_of(s: Seq<char>) -> Seq<Seq<char>>
    decreases s.len(),
{
    if s.len() >= 2 && s[0] == ':' && s[1] == ':' {
        seq![Seq::<char>::empty()] + segments_of(s.skip(2))
    } else if s.len() == 0 {
        seq![Seq::<char>::empty()]
    } else {
        let rest = segments_of(s.skip(1));
        seq![seq![s[0]] + rest[0]] + rest.skip(1)
    }
}

/// A valid path: every segment produced by splitting on `"::"` is valid.
pub open spec fn valid_path(s: Seq<char>) -> bool {
    forall|i: int| 0 <= i < segments_of(s).len() ==> valid_segment(#[trigger] segments_of(s)[i])
}

/// Splitting always yields at least one segment.
pub proof fn lemma_segments_nonempty(s: Seq<char>)
    ensures
        segments_of(s).len() >= 1,
    decreases s.len(),
{
    if s.len() >= 2 && s[0] == ':' && s[1] == ':' {
        lemma_segments_nonempty(s.skip(2));
    } else if s.len() == 0 {
    } else {
        lemma_segments_nonempty(s.skip(1));
    }
}

/// Whether position `i` of `s` starts the separator `"::"`.
pub open spec fn sep_at(s: Seq<char>, i: int) -> bool {
    0 <= i && i + 2 <= s.len() && s[i] == ':' && s[i + 1] == ':'
}

/// If no separator occurs anywhere in `s`, then `s` is its own single segment.
pub proof fn lemma_segments_no_sep(s: Seq<char>)
    requires
        forall|k: int| 0 <= k < s.len() ==> !sep_at(s, k),
    ensures
        segments_of(s) =~= seq![s],
    decreases s.len(),
{
    if s.len() == 0 {
        assert(s =~= Seq::<char>::empty());
        assert(segments_of(s) =~= seq![s]);
    } else {
        assert(!sep_at(s, 0));
        assert forall|k: int| 0 <= k < s.skip(1).len() implies !sep_at(s.skip(1), k) by {
            assert(!sep_at(s, k + 1));
            assert(s.skip(1).len() == s.len() - 1);
        }
        lemma_segments_no_sep(s.skip(1));
        let rest = segments_of(s.skip(1));
        assert(rest == seq![s.skip(1)]);
        assert(seq![s[0]] + s.skip(1) =~= s);
        assert(rest.skip(1) =~= Seq::<Seq<char>>::empty());
        assert(segments_of(s) == seq![seq![s[0]] + rest[0]] + rest.skip(1));
        assert(segments_of(s) =~= seq![s]);
    }
}

/// If the first separator of `s` starts at position `k`, then the first
/// segment is `s.take(k)` and the rest are the segments of `s.skip(k + 2)`.
pub proof fn lemma_segments_first_sep(s: Seq<char>, k: int)
    requires
        sep_at(s, k),
        forall|j: int| 0 <= j < k ==> !sep_at(s, j),
    ensures
        segments_of(s) =~= seq![s.take(k)] + segments_of(s.skip(k + 2)),
    decreases s.len(),
{
    if k == 0 {
        assert(s.take(0) =~= Seq::<char>::empty());
    } else {
        assert(!sep_at(s, 0));
        assert(sep_at(s.skip(1), k - 1)) by {
            assert(s.skip(1)[k - 1] == s[k]);
            assert(s.skip(1)[k] == s[k + 1]);
        }
        assert forall|j: int| 0 <= j < k - 1 implies !sep_at(s.skip(1), j) by {
            assert(!sep_at(s, j + 1));
            assert(s.skip(1).len() == s.len() - 1);
            if 0 <= j < k - 1 && j + 2 <= s.skip(1).len() {
                assert(s.skip(1)[j] == s[j + 1]);
                assert(s.skip(1)[j + 1] == s[j + 2]);
            }
        }
        lemma_segments_first_sep(s.skip(1), k - 1);
        let rest = segments_of(s.skip(1));
        lemma_segments_nonempty(s.skip(1).skip(k + 1));
        assert(rest[0] == s.skip(1).take(k - 1));
        assert(seq![s[0]] + s.skip(1).take(k - 1) =~= s.take(k));
        assert(s.skip(1).skip(k + 1) =~= s.skip(k + 2));
    }
}

/// Checks one segment of `s`, the characters at positions `from..to`,
/// against the segment grammar.
pub fn is_valid_segment(s: &str, from: usize, to: usize) -> (r: bool)
    requires
        from <= to <= s@.len(),
    ensures
        r == valid_segment(s@.subrange(from as int, to as int)),
{
    let ghost seg = s@.subrange(from as int, to as int);
    if from == to {
        return false;
    }
    if s.get_char(from) == '_' || s.get_char(to - 1) == '_' {
        assert(seg[0] == s@[from as int]);
        assert(seg[seg.len() - 1] == s@[to - 1]);
        return false;
    }
    let mut i: usize = from;
    while i < to
        invariant
            from <= i <= to <= s@.len(),
            seg == s@.subrange(from as int, to as int),
            forall|j: int| from <= j < i ==> is_path_char(#[trigger] s@[j]),
        decreases to - i,
    {
        let c = s.get_char(i);
        if !(('a' <= c && c <= 'z') || ('0' <= c && c <= '9') || c == '_') {
            assert(seg[i - from] == s@[i as int]);
            return false;
        }
        i = i + 1;
    }
    assert forall|j: int| 0 <= j < seg.len() implies is_path_char(#[trigger] seg[j]) by {
        assert(seg[j] == s@[from + j]);
    }
    assert(seg[0] == s@[from as int]);
    assert(seg[seg.len() - 1] == s@[to - 1]);
    true
}

/// Checks a whole path against the grammar: split on `"::"`, check each
/// segment.
pub fn is_valid_path(s: &str) -> (r: bool)
    ensures
        r == valid_path(s@),
{
    let n = s.unicode_len();
    let mut i: usize = 0;
    let mut seg_start: usize = 0;
    let ghost mut done: int = 0;
    proof {
        lemma_segments_nonempty(s@);
        assert(s@.skip(0) =~= s@);
        assert(segments_of(s@).skip(0) =~= segments_of(s@));
    }
    while i < n
        invariant
            seg_start <= i <= n == s@.len(),
            0 <= done,
            // everything scanned so far of the current segment is separator-free
            forall|k: int| seg_start <= k < i ==> !sep_at(s@, k),
            // the segments before the current one are all valid
            done < segments_of(s@).len(),
            forall|j: int| 0 <= j < done ==> valid_segment(#[trigger] segments_of(s@)[j]),
            // the rest of the split starts at seg_start
            segments_of(s@).skip(done) =~= segments_of(s@.skip(seg_start as int)),
        decreases n - i,
    {
        if s.get_char(i) == ':' && i + 1 < n && s.get_char(i + 1) == ':' {
            // a separator: close the current segment
            let ok = is_valid_segment(s, seg_start, i);
            proof {
                let tail = s@.skip(seg_start as int);
                let k = i - seg_start;
                assert(sep_at(tail, k)) by {
                    assert(tail[k] == s@[i as int]);
                    assert(tail[k + 1] == s@[i + 1]);
                }
                assert forall|j: int| 0 <= j < k implies !sep_at(tail, j) by {
                    assert(!sep_at(s@, seg_start + j));
                    if 0 <= j < k && j + 2 <= tail.len() {
                        assert(tail[j] == s@[seg_start + j]);
                        assert(tail[j + 1] == s@[seg_start + j + 1]);
                    }
                }
                lemma_segments_first_sep(tail, k);
                assert(segments_of(tail) == seq![tail.take(k)] + segments_of(tail.skip(k + 2)));
                assert(tail.take(k) =~= s@.subrange(seg_start as int, i as int));
                assert(segments_of(s@).skip(done)[0] == segments_of(s@)[done]);
                assert(segments_of(s@)[done] == tail.take(k));
                assert(tail.skip(k + 2) =~= s@.skip(i + 2));
                lemma_segments_nonempty(s@.skip(i + 2));
            }
            if !ok {
                return false;
            }
            proof {
                let prev = done;
                done = done + 1;
                assert forall|m: int| 0 <= m < segments_of(s@).skip(done).len() implies segments_of(
                    s@,
                ).skip(done)[m] == segments_of(s@.skip(i + 2))[m] by {
                    assert(segments_of(s@).skip(done)[m] == segments_of(s@)[done + m]);
                    assert(segments_of(s@)[done + m] == segments_of(s@).skip(prev)[m + 1]);
                    assert(segments_of(s@).skip(prev)[m + 1] == (seq![
                        s@.skip(seg_start as int).take(i - seg_start),
                    ] + segments_of(s@.skip(i + 2)))[m + 1]);
                }
                assert(segments_of(s@).skip(done) =~= segments_of(s@.skip(i + 2)));
            }
            i = i + 2;
            seg_start = i;
        } else {
            proof {
                assert(!sep_at(s@, i as int));
            }
            i = i + 1;
        }
    }
    // close the final segment
    let ok = is_valid_segment(s, seg_start, n);
    proof {
        let tail = s@.skip(seg_start as int);
        assert forall|k: int| 0 <= k < tail.len() implies !sep_at(tail, k) by {
            assert(!sep_at(s@, seg_start + k));
            if 0 <= k && k + 2 <= tail.len() {
                assert(tail[k] == s@[seg_start + k]);
                assert(tail[k + 1] == s@[seg_start + k + 1]);
            }
        }
        lemma_segments_no_sep(tail);
        assert(segments_of(tail) == seq![tail]);
        assert(tail =~= s@.subrange(seg_start as int, n as int));
        assert(segments_of(s@).skip(done)[0] == segments_of(s@)[done]);
        assert(segments_of(s@)[done] == tail);
        assert(segments_of(s@).skip(done).len() == 1);
        assert(segments_of(s@).len() == done + 1);
    }
    ok
}

} // verus!
