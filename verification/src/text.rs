//! Character-level text utilities: lexicographic ordering, substring and
//! suffix matching, and sorted, deduplicated path lists.
//!
//! Device paths and model strings are compared by Unicode scalar value, which
//! on the ASCII device names this system handles coincides with byte order.

use vstd::prelude::*;
use vstd::std_specs::iter::IteratorSpec;
use vstd::string::StringExecFns;

verus! {

broadcast use vstd::string::axiom_spec_iter, vstd::string::next_postcondition, vstd::utf8::char_u32_cast;

/// The first `n` characters of `a` and `b` agree.
pub open spec fn prefix_eq(a: Seq<char>, b: Seq<char>, n: int) -> bool {
    forall|j: int| 0 <= j < n ==> a[j] == b[j]
}

/// Position `i` witnesses that `a` is lexicographically below `b`: the two
/// agree before `i`, and at `i` either `a`'s character is smaller or `a` ends
/// while `b` goes on.
pub open spec fn lex_lt_at(a: Seq<char>, b: Seq<char>, i: int) -> bool {
    &&& 0 <= i <= a.len()
    &&& i <= b.len()
    &&& prefix_eq(a, b, i)
    &&& if i < a.len() && i < b.len() {
        (a[i] as u32) < (b[i] as u32)
    } else {
        i == a.len() && i < b.len()
    }
}

/// Strict lexicographic order by Unicode scalar value: either the strings
/// first differ at some position `i` with `a[i] < b[i]`, or `a` is a proper
/// prefix of `b`.
pub open spec fn lex_lt(a: Seq<char>, b: Seq<char>) -> bool {
    exists|i: int| #[trigger] lex_lt_at(a, b, i)
}

/// `n` occurs in `h` starting at position `i`.
pub open spec fn match_at(h: Seq<char>, n: Seq<char>, i: int) -> bool {
    0 <= i && i + n.len() <= h.len() && h.subrange(i, i + n.len()) == n
}

/// `n` occurs somewhere in `h` (exact, case-sensitive substring).
pub open spec fn has_substr(h: Seq<char>, n: Seq<char>) -> bool {
    exists|i: int| #[trigger] match_at(h, n, i)
}

/// `suf` is a suffix of `s`.
pub open spec fn is_suffix_of(suf: Seq<char>, s: Seq<char>) -> bool {
    suf.len() <= s.len() && s.subrange(s.len() - suf.len(), s.len() as int) == suf
}

/// Adjacent elements strictly increase, so the list is sorted and free of
/// duplicates among neighbours.
pub open spec fn strictly_sorted(s: Seq<String>) -> bool {
    forall|i: int| 0 <= i && i + 1 < s.len() ==> lex_lt(#[trigger] s[i]@, s[i + 1]@)
}

/// Some element of `s` reads as `x`.
pub open spec fn contains_text(s: Seq<String>, x: Seq<char>) -> bool {
    exists|i: int| 0 <= i < s.len() && #[trigger] s[i]@ == x
}

/// The characters of `s`, collected into a vector.
pub fn chars_of(s: &str) -> (r: Vec<char>)
    ensures
        r@ == s@,
{
    let mut it = s.chars();
    let mut out: Vec<char> = Vec::new();
    loop
        invariant
            it.obeys_prophetic_iter_laws(),
            it.decrease() is Some,
            out@ + it.remaining() == s@,
        ensures
            out@ == s@,
        decreases it.decrease()->0,
    {
        match it.next() {
            Some(c) => {
                out.push(c);
                assert(out@ + it.remaining() =~= s@);
            },
            None => {
                assert(out@ =~= s@);
                break ;
            },
        }
    }
    out
}

/// The two string slices hold the same characters.
pub fn str_eq(a: &str, b: &str) -> (r: bool)
    ensures
        r == (a@ == b@),
{
    let oa: String = a.to_owned();
    let ob: String = b.to_owned();
    oa == ob
}

/// Checks whether `n` occurs in `h` at position `i`.
fn match_at_exec(h: &Vec<char>, n: &Vec<char>, i: usize) -> (r: bool)
    requires
        i + n@.len() <= h@.len(),
    ensures
        r == match_at(h@, n@, i as int),
{
    let hlen = h.len();
    let mut j: usize = 0;
    while j < n.len()
        invariant
            hlen == h@.len(),
            i + n@.len() <= h@.len(),
            j <= n@.len(),
            forall|k: int| 0 <= k < j ==> h@[i + k] == n@[k],
        decreases n@.len() - j,
    {
        if h[i + j] != n[j] {
            assert(!match_at(h@, n@, i as int)) by {
                assert(h@.subrange(i as int, i + n@.len())[j as int] == h@[i + j]);
            }
            return false;
        }
        j += 1;
    }
    assert(h@.subrange(i as int, i + n@.len()) =~= n@);
    true
}

/// Whether `needle` occurs in `hay` as an exact, case-sensitive substring.
pub fn contains_substr(hay: &str, needle: &str) -> (r: bool)
    ensures
        r == has_substr(hay@, needle@),
{
    let h = chars_of(hay);
    let n = chars_of(needle);
    if n.len() > h.len() {
        assert(forall|i: int| !match_at(hay@, needle@, i));
        return false;
    }
    if n.len() == 0 {
        assert(match_at(hay@, needle@, 0)) by {
            assert(hay@.subrange(0, 0) =~= needle@);
        }
        return true;
    }
    let bound = h.len() - n.len();
    let mut i: usize = 0;
    while i <= bound
        invariant
            h@ == hay@,
            n@ == needle@,
            n@.len() >= 1,
            h@.len() <= usize::MAX,
            bound == h@.len() - n@.len(),
            i <= bound + 1,
            forall|k: int| 0 <= k < i ==> !match_at(hay@, needle@, k),
        decreases bound + 1 - i,
    {
        if match_at_exec(&h, &n, i) {
            return true;
        }
        i += 1;
    }
    assert(forall|k: int| !match_at(hay@, needle@, k));
    false
}

/// Whether `s` ends with the characters of `suf`.
pub fn ends_with_str(s: &str, suf: &str) -> (r: bool)
    ensures
        r == is_suffix_of(suf@, s@),
{
    let cs = chars_of(s);
    let cn = chars_of(suf);
    if cn.len() > cs.len() {
        return false;
    }
    let start = cs.len() - cn.len();
    let mut j: usize = 0;
    while j < cn.len()
        invariant
            cs@ == s@,
            cn@ == suf@,
            cs@.len() <= usize::MAX,
            cn@.len() <= cs@.len(),
            start == cs@.len() - cn@.len(),
            j <= cn@.len(),
            forall|k: int| 0 <= k < j ==> cs@[start + k] == cn@[k],
        decreases cn@.len() - j,
    {
        if cs[start + j] != cn[j] {
            assert(!is_suffix_of(suf@, s@)) by {
                assert(s@.subrange(s@.len() - suf@.len(), s@.len() as int)[j as int] == s@[start
                    + j]);
            }
            return false;
        }
        j += 1;
    }
    assert(s@.subrange(s@.len() - suf@.len(), s@.len() as int) =~= suf@);
    true
}

/// Outcome of a three-way character-sequence comparison.
#[derive(Clone, Copy, Debug, PartialEq, Eq, Structural)]
pub enum TextOrder {
    Less,
    Equal,
    Greater,
}

/// Three-way lexicographic comparison of two character vectors.
fn compare_chars(a: &Vec<char>, b: &Vec<char>) -> (r: TextOrder)
    ensures
        r == TextOrder::Less ==> lex_lt(a@, b@),
        r == TextOrder::Equal ==> a@ == b@,
        r == TextOrder::Greater ==> lex_lt(b@, a@),
{
    let mut i: usize = 0;
    while i < a.len() && i < b.len()
        invariant
            i <= a@.len(),
            i <= b@.len(),
            prefix_eq(a@, b@, i as int),
        decreases a@.len() - i,
    {
        let ca = a[i];
        let cb = b[i];
        if (ca as u32) < (cb as u32) {
            assert(lex_lt(a@, b@)) by {
                assert(lex_lt_at(a@, b@, i as int));
            }
            return TextOrder::Less;
        }
        if (cb as u32) < (ca as u32) {
            assert(lex_lt(b@, a@)) by {
                assert(lex_lt_at(b@, a@, i as int));
            }
            return TextOrder::Greater;
        }
        proof {
            vstd::utf8::char_u32_cast(ca, ca as u32);
            vstd::utf8::char_u32_cast(cb, cb as u32);
            assert(ca == cb);
            assert forall|j: int| 0 <= j < i + 1 implies a@[j] == b@[j] by {
                if j < i {
                    assert(prefix_eq(a@, b@, i as int));
                }
            }
        }
        i += 1;
    }
    if a.len() == b.len() {
        assert(a@ =~= b@);
        TextOrder::Equal
    } else if a.len() < b.len() {
        assert(lex_lt(a@, b@)) by {
            assert(prefix_eq(a@, b@, a@.len() as int));
            assert(lex_lt_at(a@, b@, a@.len() as int));
        }
        TextOrder::Less
    } else {
        assert(lex_lt(b@, a@)) by {
            assert(prefix_eq(b@, a@, b@.len() as int));
            assert(lex_lt_at(b@, a@, b@.len() as int));
        }
        TextOrder::Greater
    }
}

/// Three-way lexicographic comparison of two string slices.
pub fn compare_str(a: &str, b: &str) -> (r: TextOrder)
    ensures
        r == TextOrder::Less ==> lex_lt(a@, b@),
        r == TextOrder::Equal ==> a@ == b@,
        r == TextOrder::Greater ==> lex_lt(b@, a@),
{
    let ca = chars_of(a);
    let cb = chars_of(b);
    compare_chars(&ca, &cb)
}

/// Inserts `x` into a strictly sorted vector, keeping it strictly sorted;
/// a value already present is not inserted twice.
fn insert_unique_sorted(v: &mut Vec<String>, x: String)
    requires
        strictly_sorted(old(v)@),
    ensures
        strictly_sorted(final(v)@),
        forall|t: Seq<char>|
            #[trigger] contains_text(final(v)@, t) <==> contains_text(old(v)@, t) || t == x@,
{
    let cx = chars_of(x.as_str());
    let mut j: usize = 0;
    let mut found_greater = false;
    while j < v.len()
        invariant_except_break
            !found_greater,
        invariant
            v == old(v),
            strictly_sorted(v@),
            cx@ == x@,
            j <= v@.len(),
            forall|k: int| 0 <= k < j ==> lex_lt(#[trigger] v@[k]@, x@),
        ensures
            v == old(v),
            j <= v@.len(),
            forall|k: int| 0 <= k < j ==> lex_lt(#[trigger] v@[k]@, x@),
            found_greater ==> j < v@.len() && lex_lt(x@, v@[j as int]@),
            !found_greater ==> j == v@.len(),
        decreases v@.len() - j,
    {
        let cv = chars_of(v[j].as_str());
        match compare_chars(&cv, &cx) {
            TextOrder::Less => {
                j += 1;
            },
            TextOrder::Equal => {
                assert(contains_text(v@, x@));
                return ;
            },
            TextOrder::Greater => {
                found_greater = true;
                break ;
            },
        }
    }
    let ghost prev = v@;
    v.insert(j, x);
    proof {
        prev.insert_ensures(j as int, x);
        assert forall|i: int| 0 <= i && i + 1 < v@.len() implies lex_lt(
            #[trigger] v@[i]@,
            v@[i + 1]@,
        ) by {
            if i + 1 < j {
                assert(v@[i] == prev[i] && v@[i + 1] == prev[i + 1]);
            } else if i + 1 == j {
                assert(v@[i] == prev[i] && v@[i + 1] == x);
            } else if i == j {
                assert(v@[i] == x && v@[i + 1] == prev[i]);
            } else {
                assert(v@[i] == prev[i - 1] && v@[i + 1] == prev[i]);
            }
        }
        assert forall|t: Seq<char>| #[trigger]
            contains_text(v@, t) <==> contains_text(prev, t) || t == x@ by {
            if contains_text(v@, t) {
                let i = choose|i: int| 0 <= i < v@.len() && #[trigger] v@[i]@ == t;
                if i < j {
                    assert(prev[i]@ == t);
                } else if i == j {
                    assert(t == x@);
                } else {
                    assert(prev[i - 1]@ == t);
                }
            }
            if contains_text(prev, t) {
                let i = choose|i: int| 0 <= i < prev.len() && #[trigger] prev[i]@ == t;
                if i < j {
                    assert(v@[i]@ == t);
                } else {
                    assert(v@[i + 1]@ == t);
                }
            }
            if t == x@ {
                assert(v@[j as int]@ == t);
            }
        }
    }
}

/// Sorts the strings lexically and drops duplicates: the result is strictly
/// sorted and holds exactly the texts of the input.
pub fn sort_dedup(input: &Vec<String>) -> (r: Vec<String>)
    ensures
        strictly_sorted(r@),
        forall|t: Seq<char>| #[trigger] contains_text(r@, t) <==> contains_text(input@, t),
{
    let mut out: Vec<String> = Vec::new();
    let mut k: usize = 0;
    while k < input.len()
        invariant
            k <= input@.len(),
            strictly_sorted(out@),
            forall|t: Seq<char>| #[trigger]
                contains_text(out@, t) <==> contains_text(input@.take(k as int), t),
        decreases input@.len() - k,
    {
        let ghost before = out@;
        insert_unique_sorted(&mut out, input[k].clone());
        proof {
            assert(input@.take(k + 1).drop_last() =~= input@.take(k as int));
            assert forall|t: Seq<char>| #[trigger]
                contains_text(out@, t) <==> contains_text(input@.take(k + 1), t) by {
                if contains_text(input@.take(k + 1), t) {
                    let i = choose|i: int|
                        0 <= i < input@.take(k + 1).len() && #[trigger] input@.take(k + 1)[i]@
                            == t;
                    if i < k {
                        assert(input@.take(k as int)[i]@ == t);
                    } else {
                        assert(t == input@[k as int]@);
                    }
                }
                if contains_text(input@.take(k as int), t) {
                    let i = choose|i: int|
                        0 <= i < input@.take(k as int).len() && #[trigger] input@.take(
                            k as int,
                        )[i]@ == t;
                    assert(input@.take(k + 1)[i]@ == t);
                }
                if t == input@[k as int]@ {
                    assert(input@.take(k + 1)[k as int]@ == t);
                }
            }
        }
        k += 1;
    }
    proof {
        assert(input@.take(input@.len() as int) =~= input@);
    }
    out
}

/// Horizontal whitespace (and carriage return), as found between the columns
/// of line-oriented tables.
pub open spec fn is_ws(c: char) -> bool {
    c == ' ' || c == '\t' || c == '\r'
}

/// The lines joined back together with a newline between each pair.
pub open spec fn join_nl(lines: Seq<Seq<char>>) -> Seq<char>
    decreases lines.len(),
{
    if lines.len() == 0 {
        Seq::empty()
    } else if lines.len() == 1 {
        lines[0]
    } else {
        join_nl(lines.drop_last()) + seq!['\n'] + lines.last()
    }
}

/// The character sequences of a list of strings.
pub open spec fn views_of(lines: Seq<String>) -> Seq<Seq<char>> {
    lines.map_values(|s: String| s@)
}

/// Length of the whitespace-free run at the start of `s`.
pub open spec fn token_len(s: Seq<char>) -> int
    decreases s.len(),
{
    if s.len() == 0 || is_ws(s[0]) {
        0
    } else {
        1 + token_len(s.drop_first())
    }
}

/// The first whitespace-separated token of `s`, if `s` holds any
/// non-whitespace character.
pub open spec fn spec_first_token(s: Seq<char>) -> Option<Seq<char>>
    decreases s.len(),
{
    if s.len() == 0 {
        None
    } else if is_ws(s[0]) {
        spec_first_token(s.drop_first())
    } else {
        Some(s.subrange(0, token_len(s)))
    }
}

proof fn lemma_join_push(l: Seq<Seq<char>>, x: Seq<char>)
    ensures
        join_nl(l.push(x)) == if l.len() == 0 {
            x
        } else {
            join_nl(l) + seq!['\n'] + x
        },
{
    if l.len() == 0 {
        assert(l.push(x)[0] == x);
    } else {
        assert(l.push(x).drop_last() =~= l);
        assert(l.push(x).last() == x);
    }
}

proof fn lemma_token_len_run(s: Seq<char>, a: int, b: int)
    requires
        0 <= a <= b <= s.len(),
        forall|k: int| a <= k < b ==> !is_ws(s[k]),
        b == s.len() || is_ws(s[b]),
    ensures
        token_len(s.skip(a)) == b - a,
    decreases b - a,
{
    if a < b {
        lemma_token_len_run(s, a + 1, b);
        assert(s.skip(a).drop_first() =~= s.skip(a + 1));
        assert(s.skip(a)[0] == s[a]);
    } else {
        if a < s.len() {
            assert(s.skip(a)[0] == s[a]);
        }
    }
}

/// Relies on String implementing FromIterator over chars: collecting the
/// characters yields a string holding exactly those characters.
#[verifier::external_body]
fn string_from_chars(cs: &Vec<char>) -> (r: String)
    ensures
        r@ == cs@,
{
    cs.iter().collect()
}

/// Whether a character is horizontal whitespace.
fn is_ws_char(c: char) -> (r: bool)
    ensures
        r == is_ws(c),
{
    c == ' ' || c == '\t' || c == '\r'
}

/// Splits `content` at newlines. The result always holds at least one line;
/// joining it back with newlines gives `content` exactly, and no line holds a
/// newline itself.
pub fn split_lines(content: &str) -> (r: Vec<String>)
    ensures
        r@.len() >= 1,
        join_nl(views_of(r@)) == content@,
        forall|i: int| 0 <= i < r@.len() ==> !(#[trigger] r@[i]@).contains('\n'),
{
    let cs = chars_of(content);
    let n = cs.len();
    let mut out: Vec<String> = Vec::new();
    let mut cur: Vec<char> = Vec::new();
    let mut i: usize = 0;
    while i < n
        invariant
            cs@ == content@,
            n == cs@.len(),
            i <= n,
            join_nl(views_of(out@).push(cur@)) == content@.take(i as int),
            forall|k: int| 0 <= k < out@.len() ==> !(#[trigger] out@[k]@).contains('\n'),
            !cur@.contains('\n'),
        decreases n - i,
    {
        let c = cs[i];
        let ghost old_views = views_of(out@);
        let ghost old_cur = cur@;
        if c == '\n' {
            let line = string_from_chars(&cur);
            out.push(line);
            cur = Vec::new();
            proof {
                assert(views_of(out@) =~= old_views.push(old_cur));
                lemma_join_push(old_views, old_cur);
                lemma_join_push(views_of(out@), cur@);
                assert(join_nl(views_of(out@).push(cur@)) =~= content@.take(i + 1));
            }
        } else {
            cur.push(c);
            proof {
                lemma_join_push(old_views, old_cur);
                lemma_join_push(old_views, cur@);
                assert(join_nl(views_of(out@).push(cur@)) =~= content@.take(i + 1));
                assert(!cur@.contains('\n')) by {
                    if cur@.contains('\n') {
                        let w = choose|w: int| 0 <= w < cur@.len() && cur@[w] == '\n';
                        assert(old_cur[w] == '\n');
                    }
                }
            }
        }
        i += 1;
    }
    let ghost old_views = views_of(out@);
    let ghost old_cur = cur@;
    let line = string_from_chars(&cur);
    out.push(line);
    proof {
        assert(views_of(out@) =~= old_views.push(old_cur));
        assert(content@.take(n as int) =~= content@);
    }
    out
}

/// The first whitespace-separated token of `line`, or nothing when the line
/// is empty or all whitespace.
pub fn first_token(line: &str) -> (r: Option<String>)
    ensures
        match spec_first_token(line@) {
            Some(tok) => r matches Some(t) && t@ == tok,
            None => r is None,
        },
{
    let cs = chars_of(line);
    let n = cs.len();
    let mut a: usize = 0;
    proof {
        assert(line@.skip(0) =~= line@);
    }
    while a < n && is_ws_char(cs[a])
        invariant
            cs@ == line@,
            n == cs@.len(),
            a <= n,
            spec_first_token(line@) == spec_first_token(line@.skip(a as int)),
        decreases n - a,
    {
        proof {
            assert(line@.skip(a as int)[0] == line@[a as int]);
            assert(line@.skip(a as int).drop_first() =~= line@.skip(a + 1));
        }
        a += 1;
    }
    if a == n {
        proof {
            assert(line@.skip(a as int) =~= Seq::<char>::empty());
        }
        return None;
    }
    let mut b: usize = a;
    let mut tok: Vec<char> = Vec::new();
    while b < n && !is_ws_char(cs[b])
        invariant
            cs@ == line@,
            n == cs@.len(),
            a <= b <= n,
            a < n,
            !is_ws(line@[a as int]),
            forall|k: int| a <= k < b ==> !is_ws(line@[k]),
            tok@ == line@.subrange(a as int, b as int),
        decreases n - b,
    {
        tok.push(cs[b]);
        proof {
            assert(tok@ =~= line@.subrange(a as int, b + 1));
        }
        b += 1;
    }
    proof {
        lemma_token_len_run(line@, a as int, b as int);
        assert(line@.skip(a as int)[0] == line@[a as int]);
        assert(line@.skip(a as int).subrange(0, b - a) =~= line@.subrange(a as int, b as int));
    }
    Some(string_from_chars(&tok))
}

/// The first token of every line that has one, in line order.
pub open spec fn first_tokens(lines: Seq<String>) -> Seq<Seq<char>>
    decreases lines.len(),
{
    if lines.len() == 0 {
        Seq::empty()
    } else {
        let rest = first_tokens(lines.drop_last());
        match spec_first_token(lines.last()@) {
            Some(t) => rest.push(t),
            None => rest,
        }
    }
}

/// First columns of a line-oriented table: the first token of every line
/// after the header line.
pub fn parse_columns(lines: &Vec<String>) -> (r: Vec<String>)
    requires
        lines@.len() >= 1,
    ensures
        views_of(r@) == first_tokens(lines@.skip(1)),
{
    let mut out: Vec<String> = Vec::new();
    let mut k: usize = 1;
    proof {
        assert(lines@.subrange(1, 1) =~= Seq::<String>::empty());
        assert(views_of(out@) =~= first_tokens(lines@.subrange(1, 1)));
    }
    while k < lines.len()
        invariant
            1 <= k <= lines@.len() || lines@.len() == 0,
            lines@.len() >= 1,
            views_of(out@) == first_tokens(lines@.subrange(1, k as int)),
        decreases lines@.len() - k,
    {
        proof {
            assert(lines@.subrange(1, k + 1).drop_last() =~= lines@.subrange(1, k as int));
            assert(lines@.subrange(1, k + 1).last() == lines@[k as int]);
        }
        let ghost before = out@;
        match first_token(lines[k].as_str()) {
            Some(t) => {
                out.push(t);
                proof {
                    assert(views_of(out@) =~= views_of(before).push(t@));
                }
            },
            None => {},
        }
        k += 1;
    }
    proof {
        assert(lines@.subrange(1, lines@.len() as int) =~= lines@.skip(1));
    }
    out
}

/// Whether some element of `v` holds the same text as `s`.
pub fn contains_string(v: &Vec<String>, s: &String) -> (r: bool)
    ensures
        r == contains_text(v@, s@),
{
    let mut k: usize = 0;
    while k < v.len()
        invariant
            k <= v@.len(),
            forall|i: int| 0 <= i < k ==> v@[i]@ != s@,
        decreases v@.len() - k,
    {
        if str_eq(v[k].as_str(), s.as_str()) {
            return true;
        }
        k += 1;
    }
    false
}

/// Each input path with `prefix` prepended, in the same order.
pub fn prefix_all(prefix: &str, paths: &Vec<String>) -> (r: Vec<String>)
    ensures
        r@.len() == paths@.len(),
        forall|i: int| 0 <= i < paths@.len() ==> #[trigger] r@[i]@ == prefix@ + paths@[i]@,
{
    let mut out: Vec<String> = Vec::new();
    let mut k: usize = 0;
    while k < paths.len()
        invariant
            k <= paths@.len(),
            out@.len() == k,
            forall|i: int| 0 <= i < k ==> #[trigger] out@[i]@ == prefix@ + paths@[i]@,
        decreases paths@.len() - k,
    {
        let mut s: String = prefix.to_owned();
        s.append(paths[k].as_str());
        out.push(s);
        k += 1;
    }
    out
}

proof fn lemma_lex_irreflexive(a: Seq<char>)
    ensures
        !lex_lt(a, a),
{
    if lex_lt(a, a) {
        let i = choose|i: int| lex_lt_at(a, a, i);
        assert(false);
    }
}

proof fn lemma_lex_asymmetric(a: Seq<char>, b: Seq<char>)
    requires
        lex_lt(a, b),
    ensures
        !lex_lt(b, a),
{
    if lex_lt(b, a) {
        let i = choose|i: int| lex_lt_at(a, b, i);
        let j = choose|j: int| lex_lt_at(b, a, j);
        if i < j {
            assert(b[i] == a[i]);
        } else if j < i {
            assert(a[j] == b[j]);
        }
        assert(false);
    }
}

proof fn lemma_lex_transitive(a: Seq<char>, b: Seq<char>, c: Seq<char>)
    requires
        lex_lt(a, b),
        lex_lt(b, c),
    ensures
        lex_lt(a, c),
{
    let i = choose|i: int| lex_lt_at(a, b, i);
    let j = choose|j: int| lex_lt_at(b, c, j);
    if i <= j {
        assert(prefix_eq(a, c, i)) by {
            assert forall|k: int| 0 <= k < i implies a[k] == c[k] by {
                assert(a[k] == b[k]);
                assert(b[k] == c[k]);
            }
        }
        if i < a.len() {
            if i < j {
                assert(b[i] == c[i]);
            }
            assert(lex_lt_at(a, c, i));
        } else {
            if i < j {
                assert(lex_lt_at(a, c, i));
            } else {
                assert(j < b.len());
                assert(lex_lt_at(a, c, i));
            }
        }
    } else {
        assert(prefix_eq(a, c, j)) by {
            assert forall|k: int| 0 <= k < j implies a[k] == c[k] by {
                assert(a[k] == b[k]);
                assert(b[k] == c[k]);
            }
        }
        assert(a[j] == b[j]);
        assert(lex_lt_at(a, c, j));
    }
}

proof fn lemma_sorted_pairwise(s: Seq<String>, i: int, j: int)
    requires
        strictly_sorted(s),
        0 <= i < j < s.len(),
    ensures
        lex_lt(s[i]@, s[j]@),
    decreases j - i,
{
    if i + 1 == j {
    } else {
        lemma_sorted_pairwise(s, i, j - 1);
        lemma_lex_transitive(s[i]@, s[j - 1]@, s[j]@);
    }
}

/// Determinism of sorted, deduplicated lists: two strictly sorted lists that
/// hold the same texts read the same, element for element. The detection
/// result is therefore fully determined by its membership contract.
pub proof fn lemma_strictly_sorted_canonical(a: Seq<String>, b: Seq<String>)
    requires
        strictly_sorted(a),
        strictly_sorted(b),
        forall|t: Seq<char>| #[trigger] contains_text(a, t) <==> contains_text(b, t),
    ensures
        a.len() == b.len(),
        forall|i: int| 0 <= i < a.len() ==> (#[trigger] a[i])@ == b[i]@,
    decreases a.len(),
{
    if a.len() == 0 {
        if b.len() > 0 {
            assert(contains_text(b, b[0]@));
            assert(contains_text(a, b[0]@));
            assert(false);
        }
    } else if b.len() == 0 {
        assert(contains_text(a, a[0]@));
        assert(contains_text(b, a[0]@));
        assert(false);
    } else {
        // The heads agree: each head occurs in the other list, and a sorted
        // list's head is strictly below every later element.
        assert(a[0]@ == b[0]@) by {
            assert(contains_text(a, a[0]@));
            assert(contains_text(b, b[0]@));
            assert(contains_text(b, a[0]@));
            assert(contains_text(a, b[0]@));
            let j = choose|j: int| 0 <= j < b.len() && #[trigger] b[j]@ == a[0]@;
            let k = choose|k: int| 0 <= k < a.len() && #[trigger] a[k]@ == b[0]@;
            if j > 0 && k > 0 {
                lemma_sorted_pairwise(b, 0, j);
                lemma_sorted_pairwise(a, 0, k);
                lemma_lex_asymmetric(b[0]@, a[0]@);
            } else if j > 0 {
                lemma_sorted_pairwise(b, 0, j);
                lemma_lex_irreflexive(a[0]@);
            } else if k > 0 {
                lemma_sorted_pairwise(a, 0, k);
                lemma_lex_irreflexive(b[0]@);
            }
        }
        let at = a.drop_first();
        let bt = b.drop_first();
        assert(strictly_sorted(at)) by {
            assert forall|i: int| 0 <= i && i + 1 < at.len() implies lex_lt(
                #[trigger] at[i]@,
                at[i + 1]@,
            ) by {
                assert(at[i] == a[i + 1] && at[i + 1] == a[i + 2]);
            }
        }
        assert(strictly_sorted(bt)) by {
            assert forall|i: int| 0 <= i && i + 1 < bt.len() implies lex_lt(
                #[trigger] bt[i]@,
                bt[i + 1]@,
            ) by {
                assert(bt[i] == b[i + 1] && bt[i + 1] == b[i + 2]);
            }
        }
        assert forall|t: Seq<char>| #[trigger] contains_text(at, t) <==> contains_text(
            bt,
            t,
        ) by {
            if contains_text(at, t) {
                let i = choose|i: int| 0 <= i < at.len() && #[trigger] at[i]@ == t;
                assert(a[i + 1]@ == t);
                assert(contains_text(a, t));
                assert(contains_text(b, t));
                let j = choose|j: int| 0 <= j < b.len() && #[trigger] b[j]@ == t;
                if j == 0 {
                    lemma_sorted_pairwise(a, 0, i + 1);
                    lemma_lex_irreflexive(t);
                    assert(false);
                }
                assert(bt[j - 1]@ == t);
            }
            if contains_text(bt, t) {
                let i = choose|i: int| 0 <= i < bt.len() && #[trigger] bt[i]@ == t;
                assert(b[i + 1]@ == t);
                assert(contains_text(b, t));
                assert(contains_text(a, t));
                let j = choose|j: int| 0 <= j < a.len() && #[trigger] a[j]@ == t;
                if j == 0 {
                    lemma_sorted_pairwise(b, 0, i + 1);
                    lemma_lex_irreflexive(t);
                    assert(false);
                }
                assert(at[j - 1]@ == t);
            }
        }
        lemma_strictly_sorted_canonical(at, bt);
        assert forall|i: int| 0 <= i < a.len() implies (#[trigger] a[i])@ == b[i]@ by {
            if i > 0 {
                assert(at[i - 1]@ == bt[i - 1]@);
            }
        }
    }
}

} // verus!
