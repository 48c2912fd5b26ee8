//! Small, total operations on text, specified over sequences of characters.

use vstd::prelude::*;
use vstd::string::*;

verus! {

/// `pat` stands in `s` at position `at`.
pub open spec fn occurs_at(s: Seq<char>, pat: Seq<char>, at: int) -> bool {
    &&& 0 <= at
    &&& at + pat.len() <= s.len()
    &&& forall|k: int| 0 <= k < pat.len() ==> s[at + k] == #[trigger] pat[k]
}

/// `s` begins with `pat`.
pub open spec fn begins_with(s: Seq<char>, pat: Seq<char>) -> bool {
    occurs_at(s, pat, 0)
}

/// `s` from position `at` on, with every occurrence of a non-empty `pat`
/// replaced by `with`, scanning from the left without overlap. An empty
/// pattern occurs nowhere.
pub open spec fn replaced_from(s: Seq<char>, pat: Seq<char>, with: Seq<char>, at: int) -> Seq<char>
    decreases s.len() - at,
{
    if at < 0 || at >= s.len() {
        Seq::empty()
    } else if pat.len() > 0 && occurs_at(s, pat, at) {
        with + replaced_from(s, pat, with, at + pat.len())
    } else {
        seq![s[at]] + replaced_from(s, pat, with, at + 1)
    }
}

/// `s` with every occurrence of `pat` replaced by `with`.
pub open spec fn replaced(s: Seq<char>, pat: Seq<char>, with: Seq<char>) -> Seq<char> {
    replaced_from(s, pat, with, 0)
}

/// An ASCII decimal digit.
pub open spec fn is_digit(c: char) -> bool {
    '0' <= c <= '9'
}

/// A character with the Unicode property `White_Space`.
pub open spec fn is_space(c: char) -> bool {
    let u = c as u32;
    ||| 0x09 <= u <= 0x0d
    ||| u == 0x20
    ||| u == 0x85
    ||| u == 0xa0
    ||| u == 0x1680
    ||| 0x2000 <= u <= 0x200a
    ||| u == 0x2028
    ||| u == 0x2029
    ||| u == 0x202f
    ||| u == 0x205f
    ||| u == 0x3000
}

/// `s` without the digits it ends in.
pub open spec fn without_trailing_digits(s: Seq<char>) -> Seq<char>
    decreases s.len(),
{
    if s.len() > 0 && is_digit(s.last()) {
        without_trailing_digits(s.drop_last())
    } else {
        s
    }
}

/// `s` without the separators `sep` it ends in.
pub open spec fn without_trailing(s: Seq<char>, sep: char) -> Seq<char>
    decreases s.len(),
{
    if s.len() > 0 && s.last() == sep {
        without_trailing(s.drop_last(), sep)
    } else {
        s
    }
}

/// What follows the last `sep` in `s`; all of `s` where it holds none.
pub open spec fn after_last(s: Seq<char>, sep: char) -> Seq<char>
    decreases s.len(),
{
    if s.len() == 0 || s.last() == sep {
        Seq::empty()
    } else {
        after_last(s.drop_last(), sep).push(s.last())
    }
}

/// The last non-empty segment of a path whose segments are parted by `/`;
/// empty where the path holds nothing but separators.
pub open spec fn last_segment(path: Seq<char>) -> Seq<char> {
    after_last(without_trailing(path, '/'), '/')
}

/// `s` without the white space it begins with.
pub open spec fn without_leading_space(s: Seq<char>) -> Seq<char>
    decreases s.len(),
{
    if s.len() > 0 && is_space(s[0]) {
        without_leading_space(s.drop_first())
    } else {
        s
    }
}

/// `s` without the white space it ends in.
pub open spec fn without_trailing_space(s: Seq<char>) -> Seq<char>
    decreases s.len(),
{
    if s.len() > 0 && is_space(s.last()) {
        without_trailing_space(s.drop_last())
    } else {
        s
    }
}

/// `s` without the white space around it.
pub open spec fn trimmed(s: Seq<char>) -> Seq<char> {
    without_trailing_space(without_leading_space(s))
}

/// Exactly one character of `s` is not white space, and it is `1`: what is
/// left of `s` once the white space around it is trimmed reads `1`.
pub open spec fn reads_one(s: Seq<char>) -> bool {
    exists|i: int|
        0 <= i < s.len() && #[trigger] s[i] == '1' && forall|j: int|
            0 <= j < s.len() && j != i ==> is_space(#[trigger] s[j])
}

/// The lines of a text: what stands between its line feeds. A text without a
/// line feed is one line, and a text that ends in one has an empty last line.
pub open spec fn lines_of(s: Seq<char>) -> Seq<Seq<char>>
    decreases s.len(),
{
    if s.len() == 0 {
        seq![Seq::empty()]
    } else if s.last() == '\n' {
        lines_of(s.drop_last()).push(Seq::empty())
    } else {
        let head = lines_of(s.drop_last());
        head.drop_last().push(head.last().push(s.last()))
    }
}

/// The views of a list of strings, in order.
pub open spec fn text_views(texts: Seq<String>) -> Seq<Seq<char>> {
    texts.map_values(|t: String| t@)
}

/// Cutting the leading white space leaves a suffix that begins with no white
/// space, and cuts white space only.
pub proof fn lemma_without_leading_space(s: Seq<char>)
    ensures
        without_leading_space(s).len() <= s.len(),
        without_leading_space(s) == s.subrange(
            s.len() - without_leading_space(s).len(),
            s.len() as int,
        ),
        without_leading_space(s).len() > 0 ==> !is_space(without_leading_space(s)[0]),
        forall|i: int|
            0 <= i < s.len() - without_leading_space(s).len() ==> is_space(#[trigger] s[i]),
    decreases s.len(),
{
    let t = without_leading_space(s);
    if s.len() > 0 && is_space(s[0]) {
        let rest = s.drop_first();
        lemma_without_leading_space(rest);
        assert(t =~= s.subrange(s.len() - t.len(), s.len() as int));
        assert forall|i: int| 0 <= i < s.len() - t.len() implies is_space(#[trigger] s[i]) by {
            if i > 0 {
                assert(rest[i - 1] == s[i]);
            }
        }
    } else {
        assert(s =~= s.subrange(0, s.len() as int));
    }
}

/// Cutting the trailing white space leaves a prefix that ends in no white
/// space, and cuts white space only.
pub proof fn lemma_without_trailing_space(s: Seq<char>)
    ensures
        without_trailing_space(s).len() <= s.len(),
        without_trailing_space(s) == s.subrange(0, without_trailing_space(s).len() as int),
        without_trailing_space(s).len() > 0 ==> !is_space(without_trailing_space(s).last()),
        forall|i: int| without_trailing_space(s).len() <= i < s.len() ==> is_space(#[trigger] s[i]),
    decreases s.len(),
{
    let t = without_trailing_space(s);
    if s.len() > 0 && is_space(s.last()) {
        lemma_without_trailing_space(s.drop_last());
        assert(t =~= s.subrange(0, t.len() as int));
        assert forall|i: int| t.len() <= i < s.len() implies is_space(#[trigger] s[i]) by {
            if i < s.len() - 1 {
                assert(s.drop_last()[i] == s[i]);
            }
        }
    } else {
        assert(s =~= s.subrange(0, s.len() as int));
    }
}

/// A text reads `1`, white space aside, exactly where trimming the white
/// space around it leaves the one character `1`.
pub proof fn lemma_reads_one_is_trimmed_one(s: Seq<char>)
    ensures
        reads_one(s) <==> trimmed(s) == seq!['1'],
{
    let inner = without_leading_space(s);
    let core = trimmed(s);
    let k = s.len() - inner.len();
    lemma_without_leading_space(s);
    lemma_without_trailing_space(inner);
    assert(!is_space('1'));
    assert forall|j: int| 0 <= j < core.len() implies core[j] == s[k + j] by {
        assert(core[j] == inner[j]);
    }
    if reads_one(s) {
        let i = choose|i: int|
            0 <= i < s.len() && #[trigger] s[i] == '1' && forall|j: int|
                0 <= j < s.len() && j != i ==> is_space(#[trigger] s[j]);
        assert(k <= i);
        assert(inner[0] == s[k]);
        assert(k == i);
        assert(core.len() > 0) by {
            if core.len() == 0 {
                assert(is_space(inner[0]));
            }
        }
        assert(core.last() == s[k + core.len() - 1]);
        assert(core.len() == 1);
        assert(core =~= seq!['1']);
    }
    if core == seq!['1'] {
        assert(core[0] == '1');
        assert(s[k] == '1');
        assert forall|j: int| 0 <= j < s.len() && j != k implies is_space(#[trigger] s[j]) by {
            if j > k {
                assert(inner[j - k] == s[j]);
            }
        }
    }
}

/// Tells whether `c` is an ASCII decimal digit.
pub fn digit(c: char) -> (r: bool)
    ensures
        r == is_digit(c),
{
    '0' <= c && c <= '9'
}

/// Tells whether `c` is white space.
pub fn space(c: char) -> (r: bool)
    ensures
        r == is_space(c),
{
    let u: u32 = c as u32;
    (0x09 <= u && u <= 0x0d) || u == 0x20 || u == 0x85 || u == 0xa0 || u == 0x1680 || (0x2000 <= u
        && u <= 0x200a) || u == 0x2028 || u == 0x2029 || u == 0x202f || u == 0x205f || u == 0x3000
}

/// Tells whether `pat` stands in `s` at position `at`.
pub fn matches_at(s: &str, pat: &str, at: usize) -> (r: bool)
    ensures
        r == occurs_at(s@, pat@, at as int),
{
    let n: usize = s.unicode_len();
    let m: usize = pat.unicode_len();
    if at > n || m > n - at {
        return false;
    }
    let mut k: usize = 0;
    while k < m
        invariant
            k <= m,
            m == pat@.len(),
            n == s@.len(),
            at + m <= n,
            forall|j: int| 0 <= j < k ==> s@[at + j] == #[trigger] pat@[j],
        decreases m - k,
    {
        if s.get_char(at + k) != pat.get_char(k) {
            return false;
        }
        k += 1;
    }
    true
}

/// Tells whether `s` begins with `pat`.
pub fn starts_with(s: &str, pat: &str) -> (r: bool)
    ensures
        r == begins_with(s@, pat@),
{
    matches_at(s, pat, 0)
}

/// Replaces every occurrence of `pat` in `s` by `with`.
pub fn replace_all(s: &str, pat: &str, with: &str) -> (r: String)
    ensures
        r@ == replaced(s@, pat@, with@),
{
    let n: usize = s.unicode_len();
    let m: usize = pat.unicode_len();
    let mut out = String::new();
    let mut i: usize = 0;
    while i < n
        invariant
            i <= n,
            n == s@.len(),
            m == pat@.len(),
            out@ + replaced_from(s@, pat@, with@, i as int) == replaced(s@, pat@, with@),
        decreases n - i,
    {
        let ghost before = out@;
        if m > 0 && matches_at(s, pat, i) {
            out.append(with);
            proof {
                let rest = replaced_from(s@, pat@, with@, i + m);
                assert((before + with@) + rest =~= before + (with@ + rest));
            }
            i += m;
        } else {
            out.append(s.substring_char(i, i + 1));
            proof {
                let rest = replaced_from(s@, pat@, with@, i + 1);
                assert(s@.subrange(i as int, i + 1) =~= seq![s@[i as int]]);
                assert((before + seq![s@[i as int]]) + rest =~= before + (seq![s@[i as int]]
                    + rest));
            }
            i += 1;
        }
    }
    assert(out@ + Seq::<char>::empty() =~= out@);
    out
}

/// Cuts the digits off the end of `s`.
pub fn trim_trailing_digits(s: &str) -> (r: String)
    ensures
        r@ == without_trailing_digits(s@),
{
    let n: usize = s.unicode_len();
    let mut k: usize = n;
    assert(s@.subrange(0, n as int) =~= s@);
    while k > 0 && digit(s.get_char(k - 1))
        invariant
            k <= n,
            n == s@.len(),
            without_trailing_digits(s@) == without_trailing_digits(s@.subrange(0, k as int)),
        decreases k,
    {
        assert(s@.subrange(0, k as int).drop_last() =~= s@.subrange(0, k - 1));
        k -= 1;
    }
    String::from_str(s.substring_char(0, k))
}

/// The last non-empty segment of `path`.
pub fn final_segment(path: &str) -> (r: String)
    ensures
        r@ == last_segment(path@),
{
    let n: usize = path.unicode_len();
    let mut e: usize = n;
    assert(path@.subrange(0, n as int) =~= path@);
    while e > 0 && path.get_char(e - 1) == '/'
        invariant
            e <= n,
            n == path@.len(),
            without_trailing(path@, '/') == without_trailing(path@.subrange(0, e as int), '/'),
        decreases e,
    {
        assert(path@.subrange(0, e as int).drop_last() =~= path@.subrange(0, e - 1));
        e -= 1;
    }
    let ghost body = path@.subrange(0, e as int);
    let mut b: usize = e;
    assert(body.subrange(0, e as int) =~= body);
    assert(body.subrange(e as int, e as int) =~= Seq::<char>::empty());
    assert(after_last(body, '/') + Seq::<char>::empty() =~= after_last(body, '/'));
    while b > 0 && path.get_char(b - 1) != '/'
        invariant
            b <= e <= n,
            n == path@.len(),
            body == path@.subrange(0, e as int),
            after_last(body, '/') == after_last(body.subrange(0, b as int), '/') + body.subrange(
                b as int,
                e as int,
            ),
        decreases b,
    {
        proof {
            let head = body.subrange(0, b as int);
            assert(head.drop_last() =~= body.subrange(0, b - 1));
            assert(head.last() == path@[b - 1]);
            assert(after_last(head.drop_last(), '/').push(head.last()) + body.subrange(
                b as int,
                e as int,
            ) =~= after_last(head.drop_last(), '/') + body.subrange(b - 1, e as int));
        }
        b -= 1;
    }
    proof {
        let head = body.subrange(0, b as int);
        assert(after_last(head, '/') =~= Seq::<char>::empty());
        assert(body.subrange(b as int, e as int) =~= path@.subrange(b as int, e as int));
        assert(Seq::<char>::empty() + body.subrange(b as int, e as int) =~= body.subrange(
            b as int,
            e as int,
        ));
    }
    String::from_str(path.substring_char(b, e))
}

/// Tells whether `s`, once the white space around it is trimmed, is `1`.
pub fn is_one(s: &str) -> (r: bool)
    ensures
        r == (trimmed(s@) == seq!['1']),
        r == reads_one(s@),
{
    let n: usize = s.unicode_len();
    let mut seen: bool = false;
    let mut at: usize = 0;
    let mut i: usize = 0;
    while i < n
        invariant
            i <= n,
            n == s@.len(),
            seen ==> at < i && s@[at as int] == '1',
            forall|j: int| 0 <= j < i && !(seen && j == at) ==> is_space(#[trigger] s@[j]),
        decreases n - i,
    {
        let c = s.get_char(i);
        if !space(c) {
            if seen || c != '1' {
                proof {
                    lemma_reads_one_is_trimmed_one(s@);
                    assert forall|w: int| 0 <= w < s@.len() && #[trigger] s@[w] == '1' implies !(
                    forall|j: int| 0 <= j < s@.len() && j != w ==> is_space(#[trigger] s@[j])) by {
                        if seen && w != at as int {
                            assert(!is_space(s@[at as int]));
                        } else if w != i as int {
                            assert(!is_space(s@[i as int]));
                        }
                    }
                }
                return false;
            }
            seen = true;
            at = i;
        }
        i += 1;
    }
    proof {
        lemma_reads_one_is_trimmed_one(s@);
        if seen {
            assert(s@[at as int] == '1');
        } else {
            assert forall|w: int| 0 <= w < s@.len() implies #[trigger] s@[w] != '1' by {
                assert(is_space(s@[w]));
            }
        }
    }
    seen
}

/// Parts a text into its lines.
pub fn split_lines(s: &str) -> (r: Vec<String>)
    ensures
        text_views(r@) == lines_of(s@),
{
    let n: usize = s.unicode_len();
    let mut lines: Vec<String> = Vec::new();
    let mut start: usize = 0;
    let mut i: usize = 0;
    proof {
        assert(s@.take(0).len() == 0);
        assert(s@.subrange(0, 0) =~= Seq::<char>::empty());
        assert(text_views(lines@) =~= Seq::<Seq<char>>::empty());
        assert(seq![Seq::<char>::empty()] =~= Seq::<Seq<char>>::empty().push(Seq::<char>::empty()));
    }
    while i < n
        invariant
            start <= i <= n,
            n == s@.len(),
            lines_of(s@.take(i as int)) == text_views(lines@).push(
                s@.subrange(start as int, i as int),
            ),
        decreases n - i,
    {
        let ghost done = text_views(lines@);
        let ghost open = s@.subrange(start as int, i as int);
        proof {
            assert(s@.take(i + 1).drop_last() =~= s@.take(i as int));
            assert(s@.take(i + 1).last() == s@[i as int]);
            assert(done.push(open).drop_last() =~= done);
        }
        if s.get_char(i) == '\n' {
            lines.push(String::from_str(s.substring_char(start, i)));
            start = i + 1;
            proof {
                assert(text_views(lines@) =~= done.push(open));
                assert(s@.subrange(start as int, i + 1) =~= Seq::<char>::empty());
            }
        } else {
            proof {
                assert(s@.subrange(start as int, i + 1) =~= open.push(s@[i as int]));
            }
        }
        i += 1;
    }
    let ghost done = text_views(lines@);
    lines.push(String::from_str(s.substring_char(start, n)));
    proof {
        assert(s@.take(n as int) =~= s@);
        assert(text_views(lines@) =~= done.push(s@.subrange(start as int, n as int)));
    }
    lines
}

} // verus!
