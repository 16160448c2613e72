//! Character-level text utilities shared by the wire codec: line splitting,
//! whitespace handling, and token extraction, each with a sequence-level
//! model.

use vstd::prelude::*;

verus! {

/// The whitespace recognized inside request lines and around header parts.
pub open spec fn is_ws(c: char) -> bool {
    c == ' ' || c == '\t'
}

/// Index of the first occurrence of `c` in `s`, or `s.len()` when absent.
pub open spec fn find_char(s: Seq<char>, c: char) -> int
    decreases s.len(),
{
    if s.len() == 0 {
        0
    } else if s[0] == c {
        0
    } else {
        1 + find_char(s.skip(1), c)
    }
}

pub proof fn lemma_find_char(s: Seq<char>, c: char)
    ensures
        0 <= find_char(s, c) <= s.len(),
        find_char(s, c) < s.len() ==> s[find_char(s, c)] == c,
        forall|k: int| 0 <= k < find_char(s, c) ==> s[k] != c,
    decreases s.len(),
{
    if s.len() == 0 {
    } else if s[0] == c {
    } else {
        lemma_find_char(s.skip(1), c);
        assert forall|k: int| 0 <= k < find_char(s, c) implies s[k] != c by {
            if k > 0 {
                assert(s.skip(1)[k - 1] == s[k]);
            }
        }
    }
}

/// Index of the first whitespace character in `s`, or `s.len()` when absent.
pub open spec fn find_ws(s: Seq<char>) -> int
    decreases s.len(),
{
    if s.len() == 0 {
        0
    } else if is_ws(s[0]) {
        0
    } else {
        1 + find_ws(s.skip(1))
    }
}

pub proof fn lemma_find_ws(s: Seq<char>)
    ensures
        0 <= find_ws(s) <= s.len(),
        find_ws(s) < s.len() ==> is_ws(s[find_ws(s)]),
        forall|k: int| 0 <= k < find_ws(s) ==> !is_ws(s[k]),
    decreases s.len(),
{
    if s.len() == 0 {
    } else if is_ws(s[0]) {
    } else {
        lemma_find_ws(s.skip(1));
        assert forall|k: int| 0 <= k < find_ws(s) implies !is_ws(s[k]) by {
            if k > 0 {
                assert(s.skip(1)[k - 1] == s[k]);
            }
        }
    }
}

/// `s` split on `c`; the separator is dropped. Splitting the empty sequence
/// yields one empty part.
pub open spec fn split_char(s: Seq<char>, c: char) -> Seq<Seq<char>>
    decreases s.len(),
    via split_char_decreases
{
    let j = find_char(s, c);
    if j == s.len() {
        seq![s]
    } else {
        seq![s.take(j)] + split_char(s.skip(j + 1), c)
    }
}

#[via_fn]
proof fn split_char_decreases(s: Seq<char>, c: char) {
    lemma_find_char(s, c);
}

/// A line with one trailing carriage return removed.
pub open spec fn strip_cr(l: Seq<char>) -> Seq<char> {
    if l.len() > 0 && l[l.len() - 1] == '\r' {
        l.take(l.len() - 1)
    } else {
        l
    }
}

/// The lines of `s`: split on `'\n'`, drop a final empty segment, then strip
/// one trailing `'\r'` from each line. This treats `"\r\n"` and `"\n"` line
/// endings alike.
pub open spec fn spec_lines(s: Seq<char>) -> Seq<Seq<char>> {
    let segs = split_char(s, '\n');
    let kept = if segs.len() > 0 && segs[segs.len() - 1].len() == 0 {
        segs.drop_last()
    } else {
        segs
    };
    kept.map_values(|l: Seq<char>| strip_cr(l))
}

/// `s` without leading whitespace.
pub open spec fn trim_start(s: Seq<char>) -> Seq<char>
    decreases s.len(),
{
    if s.len() > 0 && is_ws(s[0]) {
        trim_start(s.skip(1))
    } else {
        s
    }
}

/// `s` without trailing whitespace.
pub open spec fn trim_end(s: Seq<char>) -> Seq<char>
    decreases s.len(),
{
    if s.len() > 0 && is_ws(s[s.len() - 1]) {
        trim_end(s.drop_last())
    } else {
        s
    }
}

/// `s` without leading or trailing whitespace.
pub open spec fn spec_trim(s: Seq<char>) -> Seq<char> {
    trim_end(trim_start(s))
}

/// The maximal whitespace-free runs of `s`, in order.
pub open spec fn spec_tokens(s: Seq<char>) -> Seq<Seq<char>>
    decreases s.len(),
    via spec_tokens_decreases
{
    if s.len() == 0 {
        seq![]
    } else if is_ws(s[0]) {
        spec_tokens(s.skip(1))
    } else {
        let j = find_ws(s);
        seq![s.take(j)] + spec_tokens(s.skip(j))
    }
}

#[via_fn]
proof fn spec_tokens_decreases(s: Seq<char>) {
    lemma_find_ws(s);
}

proof fn lemma_trim_start_skip(s: Seq<char>, a: int)
    requires
        0 <= a <= s.len(),
        forall|k: int| 0 <= k < a ==> is_ws(s[k]),
        a == s.len() || !is_ws(s[a]),
    ensures
        trim_start(s) == s.skip(a),
    decreases a,
{
    if a == 0 {
        assert(s.skip(0) =~= s);
    } else {
        assert(is_ws(s[0]));
        lemma_trim_start_skip(s.skip(1), a - 1);
        assert(s.skip(1).skip(a - 1) =~= s.skip(a));
    }
}

proof fn lemma_trim_end_take(s: Seq<char>, b: int)
    requires
        0 <= b <= s.len(),
        forall|k: int| b <= k < s.len() ==> is_ws(s[k]),
        b == 0 || !is_ws(s[b - 1]),
    ensures
        trim_end(s) == s.take(b),
    decreases s.len() - b,
{
    if b == s.len() {
        assert(s.take(b) =~= s);
    } else {
        assert(is_ws(s[s.len() - 1]));
        lemma_trim_end_take(s.drop_last(), b);
        assert(s.drop_last().take(b) =~= s.take(b));
    }
}

proof fn lemma_tokens_skip_ws(s: Seq<char>, a: int)
    requires
        0 <= a <= s.len(),
        forall|k: int| 0 <= k < a ==> is_ws(s[k]),
    ensures
        spec_tokens(s) == spec_tokens(s.skip(a)),
    decreases a,
{
    if a == 0 {
        assert(s.skip(0) =~= s);
    } else {
        lemma_tokens_skip_ws(s.skip(1), a - 1);
        assert(s.skip(1).skip(a - 1) =~= s.skip(a));
    }
}

/// The ASCII-lowered code point of `c`: upper-case ASCII letters map to
/// their lower-case counterparts, everything else to itself.
pub open spec fn lower_u32(c: char) -> u32 {
    if 65 <= c as u32 <= 90 {
        (c as u32 + 32) as u32
    } else {
        c as u32
    }
}

/// Equality of two character sequences up to ASCII case.
pub open spec fn ci_eq(a: Seq<char>, b: Seq<char>) -> bool {
    a.len() == b.len() && forall|i: int| 0 <= i < a.len() ==> lower_u32(#[trigger] a[i]) == lower_u32(b[i])
}

/// Character-wise string equality.
pub fn str_eq(a: &str, b: &str) -> (r: bool)
    ensures
        r == (a@ == b@),
{
    let n = a.unicode_len();
    let m = b.unicode_len();
    if n != m {
        proof {
            assert(a@ != b@);
        }
        return false;
    }
    let mut i: usize = 0;
    while i < n
        invariant
            i <= n,
            n == a@.len(),
            n == b@.len(),
            forall|k: int| 0 <= k < i ==> a@[k] == b@[k],
        decreases n - i,
    {
        if a.get_char(i) != b.get_char(i) {
            return false;
        }
        i += 1;
    }
    proof {
        assert(a@ =~= b@);
    }
    true
}

/// String equality up to ASCII case, as [`ci_eq`] describes.
pub fn str_eq_ci(a: &str, b: &str) -> (r: bool)
    ensures
        r == ci_eq(a@, b@),
{
    let n = a.unicode_len();
    let m = b.unicode_len();
    if n != m {
        return false;
    }
    let mut i: usize = 0;
    while i < n
        invariant
            i <= n,
            n == a@.len(),
            n == b@.len(),
            forall|k: int| 0 <= k < i ==> lower_u32(a@[k]) == lower_u32(b@[k]),
        decreases n - i,
    {
        let ca = a.get_char(i) as u32;
        let cb = b.get_char(i) as u32;
        let la = if 65 <= ca && ca <= 90 {
            ca + 32
        } else {
            ca
        };
        let lb = if 65 <= cb && cb <= 90 {
            cb + 32
        } else {
            cb
        };
        if la != lb {
            return false;
        }
        i += 1;
    }
    true
}

/// Splits `s` on `c`, as [`split_char`] describes.
pub fn split_on_char(s: &str, c: char) -> (r: Vec<String>)
    ensures
        r@.map_values(|l: String| l@) == split_char(s@, c),
{
    let ghost sv: Seq<char> = s@;
    let n = s.unicode_len();
    let mut segs: Vec<String> = Vec::new();
    let mut p: usize = 0;
    proof {
        assert(sv.skip(0) =~= sv);
        assert(segs@.map_values(|l: String| l@) =~= Seq::<Seq<char>>::empty());
        assert(Seq::<Seq<char>>::empty() + split_char(sv, c) =~= split_char(sv, c));
    }
    loop
        invariant_except_break
            split_char(sv, c) == segs@.map_values(|l: String| l@) + split_char(
                sv.skip(p as int),
                c,
            ),
        invariant
            p <= n,
            n == sv.len(),
            sv == s@,
        ensures
            split_char(sv, c) == segs@.map_values(|l: String| l@),
        decreases n - p,
    {
        let mut j: usize = p;
        while j < n && s.get_char(j) != c
            invariant
                p <= j <= n,
                n == sv.len(),
                sv == s@,
                forall|k: int| p <= k < j ==> sv[k] != c,
            decreases n - j,
        {
            j += 1;
        }
        proof {
            lemma_find_char(sv.skip(p as int), c);
            let f = find_char(sv.skip(p as int), c);
            assert forall|k: int| 0 <= k < j - p implies sv.skip(p as int)[k] != c by {
                assert(sv.skip(p as int)[k] == sv[p + k]);
            }
            if j < n {
                assert(sv.skip(p as int)[j - p] == sv[j as int]);
            }
            assert(f == j - p);
        }
        let seg = String::from_str(s.substring_char(p, j));
        proof {
            assert(sv.skip(p as int).take(j - p) =~= sv.subrange(p as int, j as int));
        }
        if j == n {
            let ghost old_segs = segs@;
            segs.push(seg);
            proof {
                assert(sv.skip(p as int).take(j - p) =~= sv.skip(p as int));
                assert(split_char(sv.skip(p as int), c) =~= seq![sv.skip(p as int)]);
                assert(segs@.map_values(|l: String| l@) =~= old_segs.map_values(|l: String| l@)
                    + seq![seg@]);
                assert(split_char(sv, c) =~= segs@.map_values(|l: String| l@));
            }
            break ;
        } else {
            let ghost old_segs = segs@;
            segs.push(seg);
            proof {
                assert(split_char(sv.skip(p as int), c) =~= seq![sv.skip(p as int).take(j - p)]
                    + split_char(sv.skip(p as int).skip(j - p + 1), c));
                assert(sv.skip(p as int).skip(j - p + 1) =~= sv.skip(j + 1));
                assert(segs@.map_values(|l: String| l@) =~= old_segs.map_values(|l: String| l@)
                    + seq![seg@]);
                let a = old_segs.map_values(|l: String| l@);
                let x = seq![seg@];
                let b = split_char(sv.skip(j + 1), c);
                assert((a + x) + b =~= a + (x + b));
                assert(split_char(sv, c) == segs@.map_values(|l: String| l@) + split_char(
                    sv.skip(j + 1),
                    c,
                ));
            }
            p = j + 1;
        }
    }
    segs
}

/// Splits `s` into lines as [`spec_lines`] describes.
pub fn split_lines(s: &str) -> (r: Vec<String>)
    ensures
        r@.map_values(|l: String| l@) == spec_lines(s@),
{
    let ghost sv: Seq<char> = s@;
    let mut segs = split_on_char(s, '\n');
    if segs.len() > 0 {
        let last = &segs[segs.len() - 1];
        if last.as_str().is_empty() {
            segs.pop();
        }
    }
    let ghost kept = segs@.map_values(|l: String| l@);
    let mut lines: Vec<String> = Vec::new();
    let mut i: usize = 0;
    while i < segs.len()
        invariant
            i <= segs.len(),
            kept == segs@.map_values(|l: String| l@),
            lines@.map_values(|l: String| l@) =~= kept.take(i as int).map_values(
                |l: Seq<char>| strip_cr(l),
            ),
        decreases segs.len() - i,
    {
        let li = &segs[i];
        let m = li.as_str().unicode_len();
        let ghost old_lines = lines@;
        if m > 0 && li.as_str().get_char(m - 1) == '\r' {
            lines.push(String::from_str(li.as_str().substring_char(0, m - 1)));
            proof {
                assert(li@.subrange(0, m - 1) =~= strip_cr(li@));
            }
        } else {
            lines.push(li.clone());
            proof {
                assert(li@ =~= strip_cr(li@));
            }
        }
        proof {
            assert(kept.take(i + 1) =~= kept.take(i as int).push(kept[i as int]));
            assert(lines@.map_values(|l: String| l@) =~= old_lines.map_values(|l: String| l@)
                + seq![strip_cr(kept[i as int])]);
            assert(kept.take(i + 1).map_values(|l: Seq<char>| strip_cr(l)) =~= kept.take(
                i as int,
            ).map_values(|l: Seq<char>| strip_cr(l)) + seq![strip_cr(kept[i as int])]);
        }
        i += 1;
    }
    proof {
        assert(kept.take(kept.len() as int) =~= kept);
        assert(lines@.map_values(|l: String| l@) =~= spec_lines(sv));
    }
    lines
}

/// `s` without leading or trailing whitespace, as [`spec_trim`] describes.
pub fn trim_str(s: &str) -> (r: &str)
    ensures
        r@ == spec_trim(s@),
{
    let n = s.unicode_len();
    let mut a: usize = 0;
    while a < n && (s.get_char(a) == ' ' || s.get_char(a) == '\t')
        invariant
            a <= n,
            n == s@.len(),
            forall|k: int| 0 <= k < a ==> is_ws(s@[k]),
        decreases n - a,
    {
        a += 1;
    }
    proof {
        lemma_trim_start_skip(s@, a as int);
    }
    let mut b: usize = n;
    while b > a && (s.get_char(b - 1) == ' ' || s.get_char(b - 1) == '\t')
        invariant
            a <= b <= n,
            n == s@.len(),
            trim_start(s@) == s@.skip(a as int),
            forall|k: int| b <= k < n ==> is_ws(s@[k]),
        decreases b,
    {
        b -= 1;
    }
    proof {
        let t = s@.skip(a as int);
        assert forall|k: int| b - a <= k < t.len() implies is_ws(t[k]) by {
            assert(t[k] == s@[a + k]);
        }
        if b > a {
            assert(t[b - a - 1] == s@[b - 1]);
        }
        lemma_trim_end_take(t, b - a);
        assert(t.take(b - a) =~= s@.subrange(a as int, b as int));
    }
    s.substring_char(a, b)
}

/// The whitespace-separated tokens of `s`, as [`spec_tokens`] describes.
pub fn tokens_of(s: &str) -> (r: Vec<String>)
    ensures
        r@.map_values(|t: String| t@) == spec_tokens(s@),
{
    let ghost sv: Seq<char> = s@;
    let n = s.unicode_len();
    let mut toks: Vec<String> = Vec::new();
    let mut p: usize = 0;
    proof {
        assert(sv.skip(0) =~= sv);
        assert(toks@.map_values(|t: String| t@) =~= Seq::<Seq<char>>::empty());
        assert(Seq::<Seq<char>>::empty() + spec_tokens(sv) =~= spec_tokens(sv));
    }
    loop
        invariant_except_break
            spec_tokens(sv) == toks@.map_values(|t: String| t@) + spec_tokens(sv.skip(p as int)),
        invariant
            p <= n,
            n == sv.len(),
            sv == s@,
        ensures
            spec_tokens(sv) == toks@.map_values(|t: String| t@),
        decreases n - p,
    {
        let mut a: usize = p;
        while a < n && (s.get_char(a) == ' ' || s.get_char(a) == '\t')
            invariant
                p <= a <= n,
                n == sv.len(),
                sv == s@,
                forall|k: int| p <= k < a ==> is_ws(sv[k]),
            decreases n - a,
        {
            a += 1;
        }
        proof {
            let t = sv.skip(p as int);
            assert forall|k: int| 0 <= k < a - p implies is_ws(t[k]) by {
                assert(t[k] == sv[p + k]);
            }
            lemma_tokens_skip_ws(t, a - p);
            assert(t.skip(a - p) =~= sv.skip(a as int));
        }
        if a == n {
            proof {
                assert(spec_tokens(sv.skip(n as int)) =~= Seq::<Seq<char>>::empty());
                assert(toks@.map_values(|t: String| t@) =~= spec_tokens(sv));
            }
            break ;
        }
        let mut b: usize = a;
        while b < n && s.get_char(b) != ' ' && s.get_char(b) != '\t'
            invariant
                a <= b <= n,
                n == sv.len(),
                sv == s@,
                forall|k: int| a <= k < b ==> !is_ws(sv[k]),
            decreases n - b,
        {
            b += 1;
        }
        let ghost t = sv.skip(a as int);
        proof {
            lemma_find_ws(t);
            assert forall|k: int| 0 <= k < b - a implies !is_ws(t[k]) by {
                assert(t[k] == sv[a + k]);
            }
            if b < n {
                assert(t[b - a] == sv[b as int]);
            }
            assert(find_ws(t) == b - a);
            assert(!is_ws(sv[a as int]));
            assert(!is_ws(t[0]));
        }
        let ghost old_toks = toks@;
        toks.push(String::from_str(s.substring_char(a, b)));
        proof {
            assert(spec_tokens(t) =~= seq![t.take(b - a)] + spec_tokens(t.skip(b - a)));
            assert(t.take(b - a) =~= sv.subrange(a as int, b as int));
            assert(t.skip(b - a) =~= sv.skip(b as int));
            assert(toks@.map_values(|x: String| x@) =~= old_toks.map_values(|x: String| x@)
                + seq![sv.subrange(a as int, b as int)]);
            let q = old_toks.map_values(|x: String| x@);
            let x = seq![sv.subrange(a as int, b as int)];
            let rest = spec_tokens(sv.skip(b as int));
            assert((q + x) + rest =~= q + (x + rest));
            assert(spec_tokens(sv) == toks@.map_values(|t: String| t@) + spec_tokens(
                sv.skip(b as int),
            ));
        }
        p = b;
    }
    toks
}



/// Position of the first `c` at or after `p`, or the string's length.
pub fn find_char_from(s: &str, p: usize, c: char) -> (r: usize)
    requires
        p <= s@.len(),
    ensures
        p <= r <= s@.len(),
        r - p == find_char(s@.skip(p as int), c),
{
    let n = s.unicode_len();
    let mut j: usize = p;
    while j < n && s.get_char(j) != c
        invariant
            p <= j <= n,
            n == s@.len(),
            forall|k: int| p <= k < j ==> s@[k] != c,
        decreases n - j,
    {
        j += 1;
    }
    proof {
        lemma_find_char(s@.skip(p as int), c);
        let f = find_char(s@.skip(p as int), c);
        assert forall|k: int| 0 <= k < j - p implies s@.skip(p as int)[k] != c by {
            assert(s@.skip(p as int)[k] == s@[p + k]);
        }
        if j < n {
            assert(s@.skip(p as int)[j - p] == s@[j as int]);
        }
        assert(f == j - p);
    }
    j
}

/// The lines joined with a terminator after each line.
pub open spec fn join_term(ls: Seq<Seq<char>>, sep: Seq<char>) -> Seq<char>
    decreases ls.len(),
{
    if ls.len() == 0 {
        Seq::<char>::empty()
    } else {
        ls[0] + sep + join_term(ls.skip(1), sep)
    }
}

pub proof fn lemma_find_char_concat(a: Seq<char>, b: Seq<char>, c: char)
    requires
        forall|k: int| 0 <= k < a.len() ==> a[k] != c,
    ensures
        find_char(a + b, c) == a.len() + find_char(b, c),
    decreases a.len(),
{
    if a.len() == 0 {
        assert(a + b =~= b);
    } else {
        assert((a + b)[0] == a[0]);
        assert((a + b).skip(1) =~= a.skip(1) + b);
        assert forall|k: int| 0 <= k < a.skip(1).len() implies a.skip(1)[k] != c by {
            assert(a.skip(1)[k] == a[k + 1]);
        }
        lemma_find_char_concat(a.skip(1), b, c);
    }
}

proof fn lemma_split_join(ls: Seq<Seq<char>>, sep: Seq<char>)
    requires
        sep == "\r\n"@ || sep == "\n"@,
        forall|i: int|
            0 <= i < ls.len() ==> forall|k: int|
                0 <= k < (#[trigger] ls[i]).len() ==> ls[i][k] != '\n',
    ensures
        split_char(join_term(ls, sep), '\n') == ls.map_values(
            |l: Seq<char>| l + sep.take(sep.len() - 1),
        ) + seq![Seq::<char>::empty()],
    decreases ls.len(),
{
    reveal_strlit("\r\n");
    reveal_strlit("\n");
    let j = join_term(ls, sep);
    if ls.len() == 0 {
        assert(j =~= Seq::<char>::empty());
        assert(find_char(j, '\n') == 0);
        assert(split_char(j, '\n') =~= seq![Seq::<char>::empty()]);
        assert(ls.map_values(|l: Seq<char>| l + sep.take(sep.len() - 1)) =~= Seq::<
            Seq<char>,
        >::empty());
        assert(split_char(j, '\n') =~= ls.map_values(|l: Seq<char>| l + sep.take(sep.len() - 1))
            + seq![Seq::<char>::empty()]);
    } else {
        let l0 = ls[0];
        let rest = join_term(ls.skip(1), sep);
        assert(j == l0 + sep + rest);
        assert(forall|k: int| 0 <= k < l0.len() ==> l0[k] != '\n');
        assert(l0 + sep + rest =~= l0 + (sep + rest));
        lemma_find_char_concat(l0, sep + rest, '\n');
        if sep == "\r\n"@ {
            assert((sep + rest)[0] == '\r');
            assert((sep + rest).skip(1) =~= seq!['\n'] + rest);
            assert((seq!['\n'] + rest)[0] == '\n');
            assert(find_char(seq!['\n'] + rest, '\n') == 0);
            assert(find_char(sep + rest, '\n') == 1);
        } else {
            assert((sep + rest)[0] == '\n');
            assert(find_char(sep + rest, '\n') == 0);
        }
        let f = find_char(j, '\n');
        assert(f == l0.len() + sep.len() - 1);
        assert(f < j.len());
        assert(j.take(f) =~= l0 + sep.take(sep.len() - 1));
        assert(j.skip(f + 1) =~= rest);
        assert(split_char(j, '\n') == seq![j.take(f)] + split_char(rest, '\n'));
        assert forall|i: int| 0 <= i < ls.skip(1).len() implies forall|k: int|
            0 <= k < (#[trigger] ls.skip(1)[i]).len() ==> ls.skip(1)[i][k] != '\n' by {
            assert(ls.skip(1)[i] == ls[i + 1]);
        }
        lemma_split_join(ls.skip(1), sep);
        assert(split_char(j, '\n') =~= ls.map_values(|l: Seq<char>| l + sep.take(sep.len() - 1))
            + seq![Seq::<char>::empty()]);
    }
}

/// A request written with bare `"\n"` line endings has the same lines, and
/// so parses identically, as the same request written with `"\r\n"`:
/// joining any carriage-return-free lines with either terminator yields the
/// same [`spec_lines`].
pub proof fn lemma_line_endings_equivalent(ls: Seq<Seq<char>>)
    requires
        forall|i: int|
            0 <= i < ls.len() ==> forall|k: int|
                0 <= k < (#[trigger] ls[i]).len() ==> ls[i][k] != '\n' && ls[i][k] != '\r',
    ensures
        spec_lines(join_term(ls, "\r\n"@)) == ls,
        spec_lines(join_term(ls, "\n"@)) == ls,
{
    reveal_strlit("\r\n");
    reveal_strlit("\n");
    assert forall|i: int| 0 <= i < ls.len() implies forall|k: int|
        0 <= k < (#[trigger] ls[i]).len() ==> ls[i][k] != '\n' by {
        assert(forall|k: int| 0 <= k < ls[i].len() ==> ls[i][k] != '\n' && ls[i][k] != '\r');
    }
    lemma_split_join(ls, "\r\n"@);
    lemma_split_join(ls, "\n"@);
    let crlf = "\r\n"@;
    let lf = "\n"@;
    let m1 = ls.map_values(|l: Seq<char>| l + crlf.take(crlf.len() - 1));
    let m2 = ls.map_values(|l: Seq<char>| l + lf.take(lf.len() - 1));
    let s1 = split_char(join_term(ls, crlf), '\n');
    let s2 = split_char(join_term(ls, lf), '\n');
    assert(s1.len() == ls.len() + 1);
    assert(s2.len() == ls.len() + 1);
    assert(s1[s1.len() - 1].len() == 0);
    assert(s2[s2.len() - 1].len() == 0);
    assert(s1.drop_last() =~= m1);
    assert(s2.drop_last() =~= m2);
    assert forall|i: int| 0 <= i < ls.len() implies strip_cr(m1[i]) == ls[i] && strip_cr(m2[i])
        == ls[i] by {
        assert(m1[i] == ls[i] + crlf.take(1));
        assert(crlf.take(1) =~= seq!['\r']);
        assert(m1[i].len() == ls[i].len() + 1);
        assert(m1[i][m1[i].len() - 1] == '\r');
        assert(strip_cr(m1[i]) =~= ls[i]);
        assert(m2[i] == ls[i] + lf.take(0));
        assert(lf.take(0) =~= Seq::<char>::empty());
        assert(m2[i] =~= ls[i]);
        if ls[i].len() > 0 {
            assert(ls[i][ls[i].len() - 1] != '\r');
        }
        assert(strip_cr(m2[i]) =~= ls[i]);
    }
    assert(spec_lines(join_term(ls, crlf)) =~= ls);
    assert(spec_lines(join_term(ls, lf)) =~= ls);
}

} // verus!
