use vstd::prelude::*;

use crate::text::{chars_of, copy_range, same_chars, strings_of, vecs_view, strs_view};

verus! {

/// `d` stands in `s` at position `i`.
pub open spec fn occurs_at(s: Seq<char>, d: Seq<char>, i: int) -> bool {
    0 <= i && i + d.len() <= s.len() && s.subrange(i, i + d.len()) == d
}

/// The first position at or after `i` where `d` stands in `s`, or -1.
pub open spec fn find_from(s: Seq<char>, d: Seq<char>, i: int) -> int
    decreases s.len() + 1 - i,
{
    if i < 0 || i + d.len() > s.len() {
        -1
    } else if occurs_at(s, d, i) {
        i
    } else {
        find_from(s, d, i + 1)
    }
}

/// `s` cut at the first `d`: the text before it and the text after it.
/// Without a `d`, the whole text and nothing.
pub open spec fn split_first(s: Seq<char>, d: Seq<char>) -> (Seq<char>, Seq<char>) {
    let k = find_from(s, d, 0);
    if k < 0 {
        (s, Seq::empty())
    } else {
        (s.subrange(0, k), s.subrange(k + d.len(), s.len() as int))
    }
}

/// At most `n` tokens of `s`, split left to right at `d`; the last one keeps
/// the rest of the text unsplit. Splitting stops at the first empty field.
pub open spec fn tokens_of(s: Seq<char>, d: Seq<char>, n: nat) -> Seq<Seq<char>>
    decreases n,
{
    if n == 0 {
        seq![]
    } else if n == 1 {
        if s.len() == 0 {
            seq![]
        } else {
            seq![s]
        }
    } else {
        let (a, rest) = split_first(s, d);
        if a.len() == 0 {
            seq![]
        } else {
            seq![a] + tokens_of(rest, d, (n - 1) as nat)
        }
    }
}

/// Tokens of `s` where the first field may be the marker `flag`: split into
/// `n - 1` tokens, and when the first of them is `flag`, split the last one
/// once more.
pub open spec fn tokens_with_flag(s: Seq<char>, flag: Seq<char>, d: Seq<char>, n: nat) -> Seq<
    Seq<char>,
> {
    let t = tokens_of(s, d, if n == 0 { 0 } else { (n - 1) as nat });
    if t.len() > 0 && t[0] == flag {
        t.drop_last() + tokens_of(t.last(), d, 2)
    } else {
        t
    }
}

fn matches_at(s: &[char], d: &[char], i: usize) -> (r: bool)
    requires
        i <= s@.len(),
    ensures
        r == occurs_at(s@, d@, i as int),
{
    if d.len() > s.len() - i {
        return false;
    }
    let sl = s.len();
    let mut j: usize = 0;
    while j < d.len()
        invariant
            sl == s@.len(),
            j <= d@.len(),
            i + d@.len() <= s@.len(),
            forall|k: int| 0 <= k < j ==> s@[i + k] == d@[k],
        decreases d.len() - j,
    {
        if s[i + j] != d[j] {
            assert(s@.subrange(i as int, i + d@.len())[j as int] != d@[j as int]);
            return false;
        }
        j += 1;
    }
    assert(s@.subrange(i as int, i + d@.len()) =~= d@);
    true
}

fn find_first(s: &[char], d: &[char]) -> (r: Option<usize>)
    ensures
        match r {
            Some(k) => k == find_from(s@, d@, 0) && k >= 0,
            None => find_from(s@, d@, 0) < 0,
        },
{
    if d.len() > s.len() {
        return None;
    }
    if d.len() == 0 {
        assert(s@.subrange(0, 0) =~= d@);
        return Some(0);
    }
    let sl = s.len();
    let last = sl - d.len();
    let mut i: usize = 0;
    while i <= last
        invariant
            sl == s@.len(),
            last == s@.len() - d@.len(),
            last < s@.len(),
            i <= last + 1,
            find_from(s@, d@, 0) == find_from(s@, d@, i as int),
        decreases last + 1 - i,
    {
        if matches_at(s, d, i) {
            return Some(i);
        }
        i += 1;
    }
    None
}

proof fn lemma_find_from_bounds(s: Seq<char>, d: Seq<char>, i: int)
    ensures
        find_from(s, d, i) >= 0 ==> i <= find_from(s, d, i) && occurs_at(s, d, find_from(s, d, i)),
    decreases s.len() + 1 - i,
{
    if !(i < 0 || i + d.len() > s.len()) && !occurs_at(s, d, i) {
        lemma_find_from_bounds(s, d, i + 1);
    }
}

fn split_once(s: &[char], d: &[char]) -> (r: (Vec<char>, Vec<char>))
    ensures
        (r.0@, r.1@) == split_first(s@, d@),
{
    proof {
        lemma_find_from_bounds(s@, d@, 0);
    }
    let sl = s.len();
    match find_first(s, d) {
        Some(k) => (copy_range(s, 0, k), copy_range(s, k + d.len(), s.len())),
        None => (copy_range(s, 0, s.len()), Vec::new()),
    }
}

/// At most `max_tokens` tokens of `line`, split at `token`.
pub fn tokenize_chars(line: &[char], token: &[char], max_tokens: usize) -> (r: Vec<Vec<char>>)
    ensures
        vecs_view(r@) == tokens_of(line@, token@, max_tokens as nat),
{
    let mut out: Vec<Vec<char>> = Vec::new();
    let mut rest: Vec<char> = copy_range(line, 0, line.len());
    assert(line@.subrange(0, line@.len() as int) =~= line@);
    assert(vecs_view(out@) =~= seq![]);
    assert(seq![] + tokens_of(rest@, token@, max_tokens as nat) =~= tokens_of(rest@, token@, max_tokens as nat));
    let mut n: usize = max_tokens;
    loop
        invariant
            vecs_view(out@) + tokens_of(rest@, token@, n as nat) == tokens_of(
                line@,
                token@,
                max_tokens as nat,
            ),
        decreases n,
    {
        if n == 0 {
            assert(vecs_view(out@) + seq![] =~= vecs_view(out@));
            return out;
        }
        if n == 1 {
            if rest.len() > 0 {
                let ghost before = vecs_view(out@);
                out.push(rest);
                assert(vecs_view(out@) =~= before + seq![rest@]);
            } else {
                assert(vecs_view(out@) + seq![] =~= vecs_view(out@));
            }
            return out;
        }
        let (a, b) = split_once(&rest, token);
        if a.len() == 0 {
            assert(vecs_view(out@) + seq![] =~= vecs_view(out@));
            return out;
        }
        let ghost before = vecs_view(out@);
        let ghost tail = tokens_of(b@, token@, (n - 1) as nat);
        out.push(a);
        assert(vecs_view(out@) =~= before.push(a@));
        assert(before + (seq![a@] + tail) =~= before.push(a@) + tail);
        rest = b;
        n -= 1;
    }
}

/// Tokens of `line` where the first field may be the marker `optional_field`.
pub fn tokenize_chars_with_flag(
    line: &[char],
    optional_field: &[char],
    token: &[char],
    max_tokens: usize,
) -> (r: Vec<Vec<char>>)
    ensures
        vecs_view(r@) == tokens_with_flag(line@, optional_field@, token@, max_tokens as nat),
{
    let n: usize = if max_tokens == 0 {
        0
    } else {
        max_tokens - 1
    };
    let mut t = tokenize_chars(line, token, n);
    if t.len() > 0 && same_chars(&t[0], optional_field) {
        let ghost tv = vecs_view(t@);
        let last = t.pop().unwrap();
        assert(vecs_view(t@) =~= tv.drop_last());
        let mut sub = tokenize_chars(&last, token, 2);
        let ghost tv2 = vecs_view(t@);
        let ghost sv = vecs_view(sub@);
        t.append(&mut sub);
        assert(vecs_view(t@) =~= tv2 + sv);
    }
    t
}

/// At most `max_tokens` tokens of `line`, split left to right at `token`; the
/// last token holds the rest of the line, delimiters included.
pub fn tokenize(line: &str, token: &str, max_tokens: usize) -> (r: Vec<String>)
    ensures
        strs_view(r@) == tokens_of(line@, token@, max_tokens as nat),
{
    let l = chars_of(line);
    let d = chars_of(token);
    strings_of(tokenize_chars(&l, &d, max_tokens))
}

/// Like `tokenize`, where the first field may be the marker `optional_field`:
/// when it is, the result holds one token more.
pub fn tokenize_with_optional_field(
    line: &str,
    optional_field: &str,
    token: &str,
    max_tokens: usize,
) -> (r: Vec<String>)
    ensures
        strs_view(r@) == tokens_with_flag(line@, optional_field@, token@, max_tokens as nat),
{
    let l = chars_of(line);
    let f = chars_of(optional_field);
    let d = chars_of(token);
    strings_of(tokenize_chars_with_flag(&l, &f, &d, max_tokens))
}

/// The fields `fs` with the delimiter `d` between neighbours.
pub open spec fn join(fs: Seq<Seq<char>>, d: Seq<char>) -> Seq<char>
    decreases fs.len(),
{
    if fs.len() == 0 {
        Seq::empty()
    } else if fs.len() == 1 {
        fs[0]
    } else {
        fs[0] + d + join(fs.drop_first(), d)
    }
}

/// Fields that are not empty and do not hold the delimiter `c`.
pub open spec fn plain_fields(fs: Seq<Seq<char>>, c: char) -> bool {
    forall|i: int| 0 <= i < fs.len() ==> (#[trigger] fs[i]).len() > 0 && !fs[i].contains(c)
}

proof fn lemma_occurs_single(s: Seq<char>, c: char, j: int)
    requires
        0 <= j < s.len(),
    ensures
        occurs_at(s, seq![c], j) == (s[j] == c),
{
    if s[j] == c {
        assert(s.subrange(j, j + 1) =~= seq![c]);
    } else {
        assert(s.subrange(j, j + 1)[0] != seq![c][0]);
    }
}

proof fn lemma_find_at(s: Seq<char>, c: char, i: int, k: int)
    requires
        0 <= i <= k < s.len(),
        s[k] == c,
        forall|j: int| i <= j < k ==> s[j] != c,
    ensures
        find_from(s, seq![c], i) == k,
    decreases k - i,
{
    lemma_occurs_single(s, c, i);
    if i < k {
        lemma_find_at(s, c, i + 1, k);
    }
}

proof fn lemma_find_none(s: Seq<char>, c: char, i: int)
    requires
        0 <= i,
        !s.contains(c),
    ensures
        find_from(s, seq![c], i) == -1,
    decreases s.len() + 1 - i,
{
    if i < s.len() {
        lemma_occurs_single(s, c, i);
        if s[i] == c {
            assert(s.contains(c));
        }
        lemma_find_none(s, c, i + 1);
    }
}

proof fn lemma_join_plain(fs: Seq<Seq<char>>, c: char)
    requires
        plain_fields(fs, c),
        fs.len() >= 1,
    ensures
        split_first(join(fs, seq![c]), seq![c]) == (fs[0], join(fs.drop_first(), seq![c])),
        join(fs, seq![c]).len() > 0,
{
    let d = seq![c];
    let s = join(fs, d);
    let f0 = fs[0];
    assert(f0.len() > 0);
    if fs.len() == 1 {
        lemma_find_none(f0, c, 0);
        assert(join(fs.drop_first(), d) =~= Seq::<char>::empty());
    } else {
        let rest = join(fs.drop_first(), d);
        assert(s == f0 + d + rest);
        assert(s[f0.len() as int] == c);
        assert forall|j: int| 0 <= j < f0.len() implies s[j] != c by {
            assert(s[j] == f0[j]);
            if f0[j] == c {
                assert(f0.contains(c));
            }
        }
        lemma_find_at(s, c, 0, f0.len() as int);
        assert(s.subrange(0, f0.len() as int) =~= f0);
        assert(s.subrange(f0.len() + 1int, s.len() as int) =~= rest);
    }
}

proof fn lemma_tokens_empty(d: Seq<char>, n: nat)
    ensures
        tokens_of(Seq::empty(), d, n) == Seq::<Seq<char>>::empty(),
{
    if n >= 2 {
        assert(find_from(Seq::<char>::empty(), d, 0) < 0 || d.len() == 0);
        if d.len() == 0 {
            assert(occurs_at(Seq::<char>::empty(), d, 0)) by {
                assert(Seq::<char>::empty().subrange(0, 0) =~= d);
            }
        }
    }
}

/// Splitting text made of non-empty fields without the delimiter gives the
/// fields themselves when there are at most `n` of them; otherwise the first
/// `n - 1` fields and then the rest of the text, delimiters kept.
pub proof fn lemma_tokenize_fields(fs: Seq<Seq<char>>, c: char, n: nat)
    requires
        plain_fields(fs, c),
        n >= 1,
    ensures
        tokens_of(join(fs, seq![c]), seq![c], n) == if fs.len() <= n {
            fs
        } else {
            fs.subrange(0, n - 1).push(join(fs.subrange(n - 1, fs.len() as int), seq![c]))
        },
    decreases n,
{
    let d = seq![c];
    if fs.len() == 0 {
        lemma_tokens_empty(d, n);
        assert(join(fs, d) =~= Seq::<char>::empty());
        assert(fs =~= Seq::<Seq<char>>::empty());
    } else {
        lemma_join_plain(fs, c);
        if n == 1 {
            if fs.len() > 1 {
                assert(fs.subrange(0, fs.len() as int) =~= fs);
                assert(fs.subrange(0, 0).push(join(fs, d)) =~= seq![join(fs, d)]);
            } else {
                assert(seq![fs[0]] =~= fs);
            }
        } else {
            let rest = fs.drop_first();
            assert(plain_fields(rest, c)) by {
                assert forall|i: int| 0 <= i < rest.len() implies (#[trigger] rest[i]).len() > 0
                    && !rest[i].contains(c) by {
                    assert(rest[i] == fs[i + 1]);
                }
            }
            lemma_tokenize_fields(rest, c, (n - 1) as nat);
            if fs.len() == 1 {
                lemma_tokens_empty(d, (n - 1) as nat);
                assert(join(rest, d) =~= Seq::<char>::empty());
                assert(seq![fs[0]] + Seq::<Seq<char>>::empty() =~= fs);
            } else if fs.len() <= n {
                assert(seq![fs[0]] + rest =~= fs);
            } else {
                assert(rest.subrange(n - 2, rest.len() as int) =~= fs.subrange(
                    n - 1,
                    fs.len() as int,
                ));
                assert(seq![fs[0]] + rest.subrange(0, n - 2).push(
                    join(fs.subrange(n - 1, fs.len() as int), d),
                ) =~= fs.subrange(0, n - 1).push(join(fs.subrange(n - 1, fs.len() as int), d)));
            }
        }
    }
}

/// With a marker field: text whose first field is the marker splits into
/// `n` tokens, other text into `n - 1`; so the marker adds one token exactly
/// when it is there.
pub proof fn lemma_tokenize_flag(fs: Seq<Seq<char>>, flag: Seq<char>, c: char, n: nat)
    requires
        plain_fields(fs, c),
        fs.len() >= 1,
        n >= 3,
    ensures
        tokens_with_flag(join(fs, seq![c]), flag, seq![c], n) == if fs[0] == flag {
            tokens_of(join(fs, seq![c]), seq![c], n)
        } else {
            tokens_of(join(fs, seq![c]), seq![c], (n - 1) as nat)
        },
{
    let d = seq![c];
    let s = join(fs, d);
    lemma_tokenize_fields(fs, c, (n - 1) as nat);
    lemma_tokenize_fields(fs, c, n);
    let t = tokens_of(s, d, (n - 1) as nat);
    assert(t[0] == fs[0]);
    if fs[0] == flag {
        if fs.len() <= n - 1 {
            let last = fs.last();
            lemma_tokenize_fields(seq![last], c, 2);
            assert(join(seq![last], d) == last);
            assert(t.drop_last() + seq![last] =~= fs);
        } else {
            let tail = fs.subrange(n - 2, fs.len() as int);
            assert(plain_fields(tail, c)) by {
                assert forall|i: int| 0 <= i < tail.len() implies (#[trigger] tail[i]).len() > 0
                    && !tail[i].contains(c) by {
                    assert(tail[i] == fs[i + n - 2]);
                }
            }
            lemma_tokenize_fields(tail, c, 2);
            assert(t.last() == join(tail, d));
            if fs.len() == n {
                assert(t.drop_last() + tail =~= fs);
            } else {
                assert(tail.subrange(1, tail.len() as int) =~= fs.subrange(
                    n - 1,
                    fs.len() as int,
                ));
                assert(t.drop_last() + tail.subrange(0, 1).push(
                    join(tail.subrange(1, tail.len() as int), d),
                ) =~= fs.subrange(0, n - 1).push(join(fs.subrange(n - 1, fs.len() as int), d)));
            }
        }
    }
}

} // verus!
