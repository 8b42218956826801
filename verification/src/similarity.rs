use vstd::prelude::*;
use vstd::string::*;

verus! {

/// Whether `needle` occurs contiguously inside `hay`.
pub open spec fn seq_contains_seq(hay: Seq<char>, needle: Seq<char>) -> bool {
    exists|i: int|
        0 <= i && i + needle.len() <= hay.len() && #[trigger] hay.subrange(i, i + needle.len())
            == needle
}

/// Length of the leading run of characters before the first `/`.
pub open spec fn seg_len(s: Seq<char>) -> nat
    decreases s.len(),
{
    if s.len() == 0 || s[0] == '/' {
        0
    } else {
        1 + seg_len(s.drop_first())
    }
}

/// A segment never extends past the end of the path.
pub proof fn lemma_seg_len_le(s: Seq<char>)
    ensures
        seg_len(s) <= s.len(),
    decreases s.len(),
{
    if s.len() > 0 && s[0] != '/' {
        lemma_seg_len_le(s.drop_first());
    }
}

/// The non-empty `/`-separated segments of a path, in order.
pub open spec fn spec_segments(s: Seq<char>) -> Seq<Seq<char>>
    decreases s.len(),
{
    if s.len() == 0 {
        Seq::empty()
    } else if s[0] == '/' {
        spec_segments(s.drop_first())
    } else {
        proof {
            lemma_seg_len_le(s);
            assert(seg_len(s) >= 1);
        }
        seq![s.take(seg_len(s) as int)] + spec_segments(s.skip(seg_len(s) as int))
    }
}

/// Whether `x` is one of the sequences in `b`.
pub open spec fn seqs_contain(b: Seq<Seq<char>>, x: Seq<char>) -> bool {
    exists|i: int| 0 <= i < b.len() && b[i] == x
}

/// How many elements of `a` (counted with multiplicity) occur in `b`.
pub open spec fn spec_common(a: Seq<Seq<char>>, b: Seq<Seq<char>>) -> int
    decreases a.len(),
{
    if a.len() == 0 {
        0
    } else {
        spec_common(a.drop_last(), b) + (if seqs_contain(b, a.last()) {
            1int
        } else {
            0int
        })
    }
}

/// Path similarity in hundredths. Equal paths score 100; a path that
/// contains the other scores 90; otherwise the score is the shared
/// segment count over the larger segment count, scaled by 100. Paths
/// without segments score 0.
pub open spec fn spec_similarity(a: Seq<char>, b: Seq<char>) -> int {
    if a == b {
        100
    } else if a.len() == 0 || b.len() == 0 {
        0
    } else if seq_contains_seq(a, b) || seq_contains_seq(b, a) {
        90
    } else {
        let sa = spec_segments(a);
        let sb = spec_segments(b);
        if sa.len() == 0 || sb.len() == 0 {
            0
        } else {
            let m = if sa.len() >= sb.len() {
                sa.len() as int
            } else {
                sb.len() as int
            };
            100 * spec_common(sa, sb) / m
        }
    }
}

proof fn lemma_common_bound(a: Seq<Seq<char>>, b: Seq<Seq<char>>)
    ensures
        0 <= spec_common(a, b) <= a.len(),
    decreases a.len(),
{
    if a.len() > 0 {
        lemma_common_bound(a.drop_last(), b);
    }
}

/// The similarity score always lies between 0 and 100.
pub proof fn lemma_similarity_range(a: Seq<char>, b: Seq<char>)
    ensures
        0 <= spec_similarity(a, b) <= 100,
{
    if a != b && a.len() != 0 && b.len() != 0 && !seq_contains_seq(a, b) && !seq_contains_seq(
        b,
        a,
    ) {
        let sa = spec_segments(a);
        let sb = spec_segments(b);
        if sa.len() != 0 && sb.len() != 0 {
            let m = if sa.len() >= sb.len() {
                sa.len() as int
            } else {
                sb.len() as int
            };
            lemma_common_bound(sa, sb);
            assert(100 * spec_common(sa, sb) <= 100 * m) by (nonlinear_arith)
                requires
                    spec_common(sa, sb) <= m,
            ;
            assert(100 * spec_common(sa, sb) / m <= 100) by (nonlinear_arith)
                requires
                    100 * spec_common(sa, sb) <= 100 * m,
                    m > 0,
            ;
            assert(100 * spec_common(sa, sb) / m >= 0) by (nonlinear_arith)
                requires
                    spec_common(sa, sb) >= 0,
                    m > 0,
            ;
        }
    }
}

/// Whether `needle` occurs contiguously inside `hay`.
fn string_contains(hay: &String, needle: &String) -> (r: bool)
    ensures
        r == seq_contains_seq(hay@, needle@),
{
    let hl = hay.as_str().unicode_len();
    let nl = needle.as_str().unicode_len();
    if nl > hl {
        return false;
    }
    if nl == 0 {
        proof {
            assert(hay@.subrange(0, 0 + needle@.len() as int) =~= needle@);
        }
        return true;
    }
    let bound = hl - nl;
    let mut i: usize = 0;
    while i <= bound
        invariant
            hl == hay@.len(),
            nl == needle@.len(),
            0 < nl <= hl,
            bound == hl - nl,
            i <= bound + 1,
            forall|k: int|
                0 <= k < i ==> #[trigger] hay@.subrange(k, k + needle@.len()) != needle@,
        decreases bound + 1 - i,
    {
        let mut j: usize = 0;
        let mut matched = true;
        while j < nl
            invariant
                hl == hay@.len(),
                nl == needle@.len(),
                i + nl <= hl,
                j <= nl,
                matched ==> forall|m: int| 0 <= m < j ==> hay@[i + m] == needle@[m],
                !matched ==> hay@.subrange(i as int, i + needle@.len()) != needle@,
            decreases nl - j,
        {
            let hc = hay.as_str().get_char(i + j);
            let nc = needle.as_str().get_char(j);
            if hc != nc {
                proof {
                    assert(hay@.subrange(i as int, i + needle@.len())[j as int] == hay@[i + j]);
                }
                matched = false;
                j = nl;
            } else {
                j = j + 1;
            }
        }
        if matched {
            proof {
                assert(hay@.subrange(i as int, i + needle@.len()) =~= needle@);
            }
            return true;
        }
        i = i + 1;
    }
    proof {
        assert forall|k: int|
            0 <= k && k + needle@.len() <= hay@.len() implies #[trigger] hay@.subrange(
            k,
            k + needle@.len(),
        ) != needle@ by {
            assert(k <= bound);
            assert(k < i);
        }
    }
    false
}

proof fn lemma_seg_len_at(t: Seq<char>, k: int)
    requires
        0 <= k <= t.len(),
        forall|m: int| 0 <= m < k ==> t[m] != '/',
        k == t.len() || t[k] == '/',
    ensures
        seg_len(t) == k,
    decreases k,
{
    if k == 0 {
    } else {
        assert(t[0] != '/');
        lemma_seg_len_at(t.drop_first(), k - 1);
    }
}

/// Index of the first `/` at or after `i`, or `n` if there is none.
fn find_seg_end(s: &String, i: usize, n: usize) -> (j: usize)
    requires
        n == s@.len(),
        i < n,
    ensures
        i <= j <= n,
        forall|m: int| i <= m < j ==> s@[m] != '/',
        j == n || s@[j as int] == '/',
    decreases n - i,
{
    let mut j: usize = i;
    while j < n
        invariant
            n == s@.len(),
            i <= j <= n,
            forall|m: int| i <= m < j ==> s@[m] != '/',
        decreases n - j,
    {
        if s.as_str().get_char(j) == '/' {
            return j;
        }
        j = j + 1;
    }
    j
}

/// Split a path into its non-empty `/`-separated segments.
pub fn split_segments(s: &String) -> (segs: Vec<String>)
    ensures
        segs@.map_values(|x: String| x@) == spec_segments(s@),
{
    let n = s.as_str().unicode_len();
    let mut segs: Vec<String> = Vec::new();
    let mut i: usize = 0;
    proof {
        assert(s@.skip(0) =~= s@);
        assert(segs@.map_values(|x: String| x@) + spec_segments(s@) =~= spec_segments(s@));
    }
    while i < n
        invariant
            n == s@.len(),
            i <= n,
            spec_segments(s@) == segs@.map_values(|x: String| x@) + spec_segments(
                s@.skip(i as int),
            ),
        decreases n - i,
    {
        let ghost t = s@.skip(i as int);
        if s.as_str().get_char(i) == '/' {
            proof {
                assert(t.drop_first() =~= s@.skip(i + 1));
            }
            i = i + 1;
        } else {
            let j = find_seg_end(s, i, n);
            let piece = String::from_str(s.as_str().substring_char(i, j));
            proof {
                assert(forall|m: int| 0 <= m < j - i ==> t[m] == s@[i + m] && t[m] != '/');
                assert(j - i == t.len() || t[j - i] == '/');
                lemma_seg_len_at(t, j - i);
                assert(t.take(j - i) =~= s@.subrange(i as int, j as int));
                assert(t.skip(j - i) =~= s@.skip(j as int));
                assert(piece@ == s@.subrange(i as int, j as int));
            }
            let ghost segs0 = segs@;
            segs.push(piece);
            proof {
                assert(segs@.map_values(|x: String| x@) =~= segs0.map_values(|x: String| x@)
                    .push(piece@));
                assert(spec_segments(t) == seq![t.take(seg_len(t) as int)] + spec_segments(
                    t.skip(seg_len(t) as int),
                ));
                assert(segs@.map_values(|x: String| x@) + spec_segments(s@.skip(j as int))
                    =~= segs0.map_values(|x: String| x@) + spec_segments(t));
            }
            i = j;
        }
    }
    proof {
        assert(s@.skip(n as int) =~= Seq::<char>::empty());
        assert(spec_segments(s@.skip(n as int)) =~= Seq::<Seq<char>>::empty());
        assert(segs@.map_values(|x: String| x@) =~= spec_segments(s@));
    }
    segs
}

/// Whether some element of `haystack` views equal to `x`.
fn vec_contains_string(haystack: &Vec<String>, x: &String) -> (r: bool)
    ensures
        r == seqs_contain(haystack@.map_values(|y: String| y@), x@),
{
    let ghost views = haystack@.map_values(|y: String| y@);
    let mut i: usize = 0;
    while i < haystack.len()
        invariant
            views == haystack@.map_values(|y: String| y@),
            i <= haystack@.len(),
            forall|k: int| 0 <= k < i ==> views[k] != x@,
        decreases haystack@.len() - i,
    {
        proof {
            assert(views[i as int] == haystack@[i as int]@);
        }
        if haystack[i] == *x {
            return true;
        }
        i = i + 1;
    }
    false
}

/// How many segments of `a` occur among the segments of `b`.
fn count_common(a: &Vec<String>, b: &Vec<String>) -> (c: usize)
    ensures
        c == spec_common(
            a@.map_values(|y: String| y@),
            b@.map_values(|y: String| y@),
        ),
{
    let ghost va = a@.map_values(|y: String| y@);
    let ghost vb = b@.map_values(|y: String| y@);
    proof {
        lemma_common_bound(va, vb);
    }
    let mut c: usize = 0;
    let mut i: usize = 0;
    while i < a.len()
        invariant
            va == a@.map_values(|y: String| y@),
            vb == b@.map_values(|y: String| y@),
            i <= a@.len(),
            c == spec_common(va.take(i as int), vb),
            c <= i,
        decreases a@.len() - i,
    {
        let ghost prefix = va.take(i as int);
        let hit = vec_contains_string(b, &a[i]);
        proof {
            assert(va.take(i + 1).drop_last() =~= prefix);
            assert(va.take(i + 1).last() == va[i as int]);
        }
        if hit {
            c = c + 1;
        }
        i = i + 1;
    }
    proof {
        assert(va.take(va.len() as int) =~= va);
    }
    c
}

/// Path similarity in hundredths; agrees with `spec_similarity`.
pub fn string_similarity(a: &String, b: &String) -> (r: u64)
    ensures
        r as int == spec_similarity(a@, b@),
        r <= 100,
{
    proof {
        lemma_similarity_range(a@, b@);
    }
    if *a == *b {
        return 100;
    }
    let la = a.as_str().unicode_len();
    let lb = b.as_str().unicode_len();
    if la == 0 || lb == 0 {
        return 0;
    }
    if string_contains(a, b) || string_contains(b, a) {
        return 90;
    }
    let sa = split_segments(a);
    let sb = split_segments(b);
    if sa.len() == 0 || sb.len() == 0 {
        return 0;
    }
    let c = count_common(&sa, &sb);
    let m = if sa.len() >= sb.len() {
        sa.len()
    } else {
        sb.len()
    };
    proof {
        lemma_common_bound(
            sa@.map_values(|y: String| y@),
            sb@.map_values(|y: String| y@),
        );
    }
    let score_wide: u128 = 100u128 * (c as u128) / (m as u128);
    proof {
        assert(100 * (c as int) / (m as int) <= 100) by (nonlinear_arith)
            requires
                0 <= c <= m,
                m > 0,
        ;
    }
    score_wide as u64
}

/// The first path in `keys` whose similarity to `target` reaches `t`,
/// with its score.
pub open spec fn spec_find_similar(keys: Seq<String>, target: Seq<char>, t: int) -> Option<
    (Seq<char>, int),
>
    decreases keys.len(),
{
    if keys.len() == 0 {
        None
    } else if spec_similarity(keys[0]@, target) >= t {
        Some((keys[0]@, spec_similarity(keys[0]@, target)))
    } else {
        spec_find_similar(keys.drop_first(), target, t)
    }
}

/// Scan `keys` in order for the first path whose similarity to
/// `target` reaches `threshold` (in hundredths).
pub fn find_similar_path(keys: &Vec<String>, target: &String, threshold: u64) -> (r: Option<
    (String, u64),
>)
    ensures
        (match r {
            Some(p) => spec_find_similar(keys@, target@, threshold as int) == Some(
                (p.0@, p.1 as int),
            ),
            None => spec_find_similar(keys@, target@, threshold as int) is None,
        }),
{
    let mut i: usize = 0;
    proof {
        assert(keys@.skip(0) =~= keys@);
    }
    while i < keys.len()
        invariant
            i <= keys@.len(),
            spec_find_similar(keys@, target@, threshold as int) == spec_find_similar(
                keys@.skip(i as int),
                target@,
                threshold as int,
            ),
        decreases keys@.len() - i,
    {
        let ghost rest = keys@.skip(i as int);
        let score = string_similarity(&keys[i], target);
        proof {
            assert(rest[0] == keys@[i as int]);
        }
        if score >= threshold {
            return Some((keys[i].clone(), score));
        }
        proof {
            assert(rest.drop_first() =~= keys@.skip(i + 1));
        }
        i = i + 1;
    }
    proof {
        assert(keys@.skip(keys@.len() as int).len() == 0);
    }
    None
}

} // verus!
