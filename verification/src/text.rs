use vstd::prelude::*;

verus! {

/// The whitespace characters that trimming removes.
pub open spec fn is_space_char(c: char) -> bool {
    c == ' ' || c == '\t' || c == '\n' || c == '\r'
}

pub fn is_space_exec(c: char) -> (b: bool)
    ensures
        b == is_space_char(c),
{
    c == ' ' || c == '\t' || c == '\n' || c == '\r'
}

/// Drops every leading comment-marker character.
pub open spec fn drop_leading_hashes(s: Seq<char>) -> Seq<char>
    decreases s.len(),
{
    if s.len() > 0 && s[0] == '#' {
        drop_leading_hashes(s.drop_first())
    } else {
        s
    }
}

/// Drops whitespace from both ends.
pub open spec fn trim_spaces(s: Seq<char>) -> Seq<char>
    decreases s.len(),
{
    if s.len() > 0 && is_space_char(s[0]) {
        trim_spaces(s.drop_first())
    } else if s.len() > 0 && is_space_char(s.last()) {
        trim_spaces(s.drop_last())
    } else {
        s
    }
}

/// Normalizes one comment token: leading marker characters, then the
/// surrounding whitespace, are removed.
pub open spec fn trim_comment(s: Seq<char>) -> Seq<char> {
    trim_spaces(drop_leading_hashes(s))
}

proof fn lemma_drop_hashes_idx(s: Seq<char>, a: int)
    requires
        0 <= a <= s.len(),
        forall|i: int| 0 <= i < a ==> s[i] == '#',
        a == s.len() || s[a] != '#',
    ensures
        drop_leading_hashes(s) == s.skip(a),
    decreases a,
{
    if a == 0 {
        assert(s.skip(0) =~= s);
    } else {
        lemma_drop_hashes_idx(s.drop_first(), a - 1);
        assert(s.drop_first().skip(a - 1) =~= s.skip(a));
    }
}

proof fn lemma_trim_spaces_all(s: Seq<char>)
    requires
        forall|i: int| 0 <= i < s.len() ==> is_space_char(s[i]),
    ensures
        trim_spaces(s) == Seq::<char>::empty(),
    decreases s.len(),
{
    if s.len() > 0 {
        lemma_trim_spaces_all(s.drop_first());
    } else {
        assert(s =~= Seq::<char>::empty());
    }
}

proof fn lemma_trim_spaces_idx(s: Seq<char>, a: int, b: int)
    requires
        0 <= a < b <= s.len(),
        forall|i: int| 0 <= i < a ==> is_space_char(s[i]),
        forall|i: int| b <= i < s.len() ==> is_space_char(s[i]),
        !is_space_char(s[a]),
        !is_space_char(s[b - 1]),
    ensures
        trim_spaces(s) == s.subrange(a, b),
    decreases s.len(),
{
    if a > 0 {
        lemma_trim_spaces_idx(s.drop_first(), a - 1, b - 1);
        assert(s.drop_first().subrange(a - 1, b - 1) =~= s.subrange(a, b));
    } else if b < s.len() {
        lemma_trim_spaces_idx(s.drop_last(), a, b);
        assert(s.drop_last().subrange(a, b) =~= s.subrange(a, b));
    } else {
        assert(s.subrange(0, s.len() as int) =~= s);
    }
}

/// Trims one comment token's text: strips leading `#` markers and the
/// surrounding whitespace.
pub fn trim_comment_text(s: &str) -> (r: String)
    ensures
        r@ == trim_comment(s@),
{
    let n: usize = s.unicode_len();
    let mut a: usize = 0;
    while a < n && s.get_char(a) == '#'
        invariant
            0 <= a <= n,
            n == s@.len(),
            forall|i: int| 0 <= i < a ==> s@[i] == '#',
        decreases n - a,
    {
        a = a + 1;
    }
    proof {
        lemma_drop_hashes_idx(s@, a as int);
    }
    let ghost s1 = s@.skip(a as int);
    let mut l: usize = a;
    while l < n && is_space_exec(s.get_char(l))
        invariant
            a <= l <= n,
            n == s@.len(),
            forall|i: int| a <= i < l ==> is_space_char(s@[i]),
        decreases n - l,
    {
        l = l + 1;
    }
    if l == n {
        proof {
            assert(forall|i: int| 0 <= i < s1.len() ==> is_space_char(#[trigger] s1[i]));
            lemma_trim_spaces_all(s1);
        }
        return String::new();
    }
    let mut b: usize = n;
    while b > l + 1 && is_space_exec(s.get_char(b - 1))
        invariant
            l < b <= n,
            n == s@.len(),
            forall|i: int| b <= i < n ==> is_space_char(s@[i]),
        decreases b,
    {
        b = b - 1;
    }
    proof {
        lemma_trim_spaces_idx(s1, l - a, b - a);
        assert(s1.subrange(l - a, b - a) =~= s@.subrange(l as int, b as int));
    }
    s.substring_char(l, b).to_owned()
}

/// Splits a text into its lines at newline characters. The result always has
/// one more line than there are newlines; an empty text has one empty line.
pub open spec fn split_nl(s: Seq<char>) -> Seq<Seq<char>>
    decreases s.len(),
{
    if s.len() == 0 {
        seq![Seq::<char>::empty()]
    } else if s[0] == '\n' {
        seq![Seq::<char>::empty()] + split_nl(s.drop_first())
    } else {
        let rest = split_nl(s.drop_first());
        seq![seq![s[0]] + rest[0]] + rest.drop_first()
    }
}

pub proof fn lemma_split_nl_len(s: Seq<char>)
    ensures
        split_nl(s).len() >= 1,
    decreases s.len(),
{
    if s.len() > 0 {
        lemma_split_nl_len(s.drop_first());
    }
}

/// If the first `k` characters of `t` hold no newline and either `k` is the
/// whole text or `t[k]` is a newline, the split starts with that chunk.
proof fn lemma_split_nl_chunk(t: Seq<char>, k: int)
    requires
        0 <= k <= t.len(),
        forall|i: int| 0 <= i < k ==> t[i] != '\n',
        k < t.len() ==> t[k] == '\n',
    ensures
        k == t.len() ==> split_nl(t) == seq![t],
        k < t.len() ==> split_nl(t) == seq![t.take(k)] + split_nl(t.skip(k + 1)),
    decreases k,
{
    if k == 0 {
        if t.len() == 0 {
            assert(split_nl(t) =~~= seq![t]);
        } else {
            assert(t.take(0) =~= Seq::<char>::empty());
            assert(t.skip(1) =~= t.drop_first());
            assert(split_nl(t) =~~= seq![t.take(0)] + split_nl(t.skip(1)));
        }
    } else {
        let t1 = t.drop_first();
        lemma_split_nl_chunk(t1, k - 1);
        lemma_split_nl_len(t1);
        if k == t.len() {
            assert(split_nl(t1) == seq![t1]);
            assert(seq![t[0]] + t1 =~= t);
            assert(split_nl(t) =~~= seq![t]);
        } else {
            lemma_split_nl_len(t1.skip(k));
            assert(t1.skip(k) =~= t.skip(k + 1));
            assert(seq![t[0]] + t1.take(k - 1) =~= t.take(k));
            assert(split_nl(t) =~~= seq![t.take(k)] + split_nl(t.skip(k + 1)));
        }
    }
}

/// Splits a text into lines, exactly as `split_nl` describes.
pub fn split_lines(s: &str) -> (r: Vec<String>)
    ensures
        r.deep_view() == split_nl(s@),
{
    let n: usize = s.unicode_len();
    let mut out: Vec<String> = Vec::new();
    let mut start: usize = 0;
    let mut j: usize = 0;
    proof {
        assert(s@.skip(0) =~= s@);
        assert(split_nl(s@) =~~= out.deep_view() + split_nl(s@.skip(0)));
    }
    while j < n
        invariant
            0 <= start <= j <= n,
            n == s@.len(),
            forall|i: int| start <= i < j ==> s@[i] != '\n',
            split_nl(s@) =~~= out.deep_view() + split_nl(s@.skip(start as int)),
        decreases n - j,
    {
        if s.get_char(j) == '\n' {
            let piece = s.substring_char(start, j).to_owned();
            proof {
                let tail = s@.skip(start as int);
                assert(forall|i: int|
                    0 <= i < j - start ==> #[trigger] tail[i] == s@[i + start]);
                lemma_split_nl_chunk(tail, j - start);
                assert(tail.take(j - start) =~= s@.subrange(start as int, j as int));
                assert(tail.skip(j - start + 1) =~= s@.skip(j + 1));
            }
            out.push(piece);
            proof {
                assert(split_nl(s@) =~~= out.deep_view() + split_nl(s@.skip(j + 1)));
            }
            start = j + 1;
        }
        j = j + 1;
    }
    let piece = s.substring_char(start, n).to_owned();
    proof {
        let tail = s@.skip(start as int);
        assert(forall|i: int| 0 <= i < n - start ==> #[trigger] tail[i] == s@[i + start]);
        lemma_split_nl_chunk(tail, n - start);
        assert(tail =~= s@.subrange(start as int, n as int));
    }
    out.push(piece);
    proof {
        assert(out.deep_view() =~~= split_nl(s@));
    }
    out
}

} // verus!
