//! Verified text primitives: whitespace tokenizing, line splitting, trimming,
//! substring search and integer parsing.  Every report parser in this crate is
//! specified in terms of the spec functions defined here.

use vstd::prelude::*;

verus! {

/// The whitespace characters recognized by the tokenizer: ASCII space, tab,
/// line feed, carriage return, vertical tab and form feed.
pub open spec fn is_space(c: char) -> bool {
    c == ' ' || c == '\t' || c == '\n' || c == '\r' || c == '\u{b}' || c == '\u{c}'
}

pub fn is_digit_exec(c: char) -> (r: bool)
    ensures
        r == is_digit(c),
{
    '0' <= c && c <= '9'
}

pub fn is_space_exec(c: char) -> (r: bool)
    ensures
        r == is_space(c),
{
    c == ' ' || c == '\t' || c == '\n' || c == '\r' || c == '\u{b}' || c == '\u{c}'
}

/// Numeric value of an ASCII digit.
pub open spec fn digit_val(c: char) -> int {
    c as int - '0' as int
}

pub open spec fn is_digit(c: char) -> bool {
    '0' <= c && c <= '9'
}

/// The unsigned integer denoted by a sequence of digits, most significant first.
pub open spec fn digits_value(s: Seq<char>) -> int
    decreases s.len(),
{
    if s.len() == 0 {
        0
    } else {
        digits_value(s.drop_last()) * 10 + digit_val(s.last())
    }
}

pub open spec fn all_digits(s: Seq<char>) -> bool {
    forall|i: int| 0 <= i < s.len() ==> is_digit(#[trigger] s[i])
}

/// A number with an optional leading `+` stripped.
pub open spec fn unsigned_body(s: Seq<char>) -> Seq<char> {
    if s.len() > 0 && s[0] == '+' {
        s.subrange(1, s.len() as int)
    } else {
        s
    }
}

/// What `str::parse::<u64>` accepts, restricted to the unsigned grammar:
/// an optional leading `+`, then one or more digits, value within range.
pub open spec fn spec_parse_u64(s: Seq<char>) -> Option<u64> {
    let body = unsigned_body(s);
    if body.len() > 0 && all_digits(body) && digits_value(body) <= u64::MAX {
        Some(digits_value(body) as u64)
    } else {
        None
    }
}

proof fn lemma_digits_value_nonneg(s: Seq<char>)
    requires
        all_digits(s),
    ensures
        digits_value(s) >= 0,
    decreases s.len(),
{
    if s.len() > 0 {
        assert(all_digits(s.drop_last()));
        lemma_digits_value_nonneg(s.drop_last());
    }
}

/// Parses the digit body of an unsigned number; mirrors `str::parse::<u64>`
/// on inputs made of an optional `+` sign followed by digits.
pub fn parse_u64(s: &str) -> (r: Option<u64>)
    ensures
        r == spec_parse_u64(s@),
{
    let n = s.unicode_len();
    let start: usize = if n > 0 && s.get_char(0) == '+' {
        1
    } else {
        0
    };
    let ghost body = unsigned_body(s@);
    proof {
        assert(body =~= s@.subrange(start as int, s@.len() as int));
    }
    if start >= n {
        return None;
    }
    let mut i: usize = start;
    let mut acc: u64 = 0;
    while i < n
        invariant
            start <= i <= n,
            n == s@.len(),
            start == if s@.len() > 0 && s@[0] == '+' { 1int } else { 0int },
            body == unsigned_body(s@),
            body == s@.subrange(start as int, s@.len() as int),
            all_digits(s@.subrange(start as int, i as int)),
            acc == digits_value(s@.subrange(start as int, i as int)),
        decreases n - i,
    {
        let c = s.get_char(i);
        if c < '0' || c > '9' {
            assert(!is_digit(body[i - start]));
            return None;
        }
        let d: u64 = (c as u32 - '0' as u32) as u64;
        proof {
            lemma_digits_value_nonneg(s@.subrange(start as int, i as int));
        }
        if acc > u64::MAX / 10 || (acc == u64::MAX / 10 && d > u64::MAX % 10) {
            proof {
                let ext = s@.subrange(start as int, i as int + 1);
                assert(ext.drop_last() =~= s@.subrange(start as int, i as int));
                assert(digits_value(ext) == acc * 10 + d);
                assert(digits_value(ext) > u64::MAX);
                if all_digits(body) {
                    assert(body.subrange(0, i + 1 - start) =~= ext);
                    lemma_digits_value_grows(body, i + 1 - start);
                    assert(digits_value(body) > u64::MAX);
                }
            }
            return None;
        }
        acc = acc * 10 + d;
        proof {
            let ext = s@.subrange(start as int, i as int + 1);
            assert(ext.drop_last() =~= s@.subrange(start as int, i as int));
        }
        i = i + 1;
    }
    proof {
        assert(s@.subrange(start as int, n as int) =~= body);
    }
    Some(acc)
}

/// If a digit prefix already exceeds `u64::MAX`, so does the whole string.
proof fn lemma_digits_value_grows(s: Seq<char>, k: int)
    requires
        all_digits(s),
        0 < k <= s.len(),
        digits_value(s.subrange(0, k)) > u64::MAX,
    ensures
        digits_value(s) > u64::MAX,
    decreases s.len() - k,
{
    if k == s.len() {
        assert(s.subrange(0, k) =~= s);
    } else {
        let p = s.subrange(0, k + 1);
        assert(p.drop_last() =~= s.subrange(0, k));
        assert(all_digits(p.drop_last()));
        assert(digit_val(p.last()) >= 0);
        lemma_digits_value_grows(s, k + 1);
    }
}

// ---------------------------------------------------------------------------
// Whitespace scanning
// ---------------------------------------------------------------------------
/// The suffix of `s` after its leading whitespace.
pub open spec fn skip_spaces(s: Seq<char>) -> Seq<char>
    decreases s.len(),
{
    if s.len() == 0 {
        s
    } else if is_space(s[0]) {
        skip_spaces(s.drop_first())
    } else {
        s
    }
}

/// The prefix of `s` before its trailing whitespace.
pub open spec fn trim_end_spaces(s: Seq<char>) -> Seq<char>
    decreases s.len(),
{
    if s.len() == 0 {
        s
    } else if is_space(s.last()) {
        trim_end_spaces(s.drop_last())
    } else {
        s
    }
}

/// `s` with leading and trailing whitespace removed, as `str::trim` does
/// for ASCII whitespace.
pub open spec fn spec_trim(s: Seq<char>) -> Seq<char> {
    trim_end_spaces(skip_spaces(s))
}

/// If the first `q` characters are spaces and the `q`-th is not (or is the
/// end), skipping leading spaces lands exactly at `q`.
pub proof fn lemma_skip_spaces_at(s: Seq<char>, q: int)
    requires
        0 <= q <= s.len(),
        forall|k: int| 0 <= k < q ==> is_space(#[trigger] s[k]),
        q == s.len() || !is_space(s[q]),
    ensures
        skip_spaces(s) =~= s.subrange(q, s.len() as int),
    decreases q,
{
    if q == 0 {
        assert(s.subrange(0, s.len() as int) =~= s);
    } else {
        let t = s.drop_first();
        lemma_skip_spaces_at(t, q - 1);
        assert(t.subrange(q - 1, t.len() as int) =~= s.subrange(q, s.len() as int));
    }
}

pub proof fn lemma_trim_end_at(s: Seq<char>, b: int)
    requires
        0 <= b <= s.len(),
        forall|k: int| b <= k < s.len() ==> is_space(#[trigger] s[k]),
        b == 0 || !is_space(s[b - 1]),
    ensures
        trim_end_spaces(s) =~= s.subrange(0, b),
    decreases s.len(),
{
    if b == s.len() {
        if s.len() == 0 {
        } else {
            assert(s.subrange(0, b) =~= s);
        }
    } else {
        lemma_trim_end_at(s.drop_last(), b);
        assert(s.drop_last().subrange(0, b) =~= s.subrange(0, b));
    }
}

/// Removes leading and trailing ASCII whitespace.
#[verifier::loop_isolation(false)]
pub fn trim(s: &str) -> (r: &str)
    ensures
        r@ == spec_trim(s@),
{
    let n = s.unicode_len();
    let mut a: usize = 0;
    while a < n && is_space_exec(s.get_char(a))
        invariant
            0 <= a <= n,
            forall|k: int| 0 <= k < a ==> is_space(#[trigger] s@[k]),
        decreases n - a,
    {
        a = a + 1;
    }
    proof {
        lemma_skip_spaces_at(s@, a as int);
    }
    let mut b: usize = n;
    while b > a && is_space_exec(s.get_char(b - 1))
        invariant
            a <= b <= n,
            forall|k: int| b <= k < n ==> is_space(#[trigger] s@[k]),
        decreases b,
    {
        b = b - 1;
    }
    proof {
        let mid = s@.subrange(a as int, n as int);
        assert(forall|k: int| b - a <= k < mid.len() ==> is_space(#[trigger] mid[k]));
        lemma_trim_end_at(mid, b - a);
        assert(mid.subrange(0, b - a) =~= s@.subrange(a as int, b as int));
    }
    s.substring_char(a, b)
}

// ---------------------------------------------------------------------------
// Whitespace tokenizing
// ---------------------------------------------------------------------------
/// Length of the maximal non-whitespace prefix of `s`.
pub open spec fn token_len(s: Seq<char>) -> int
    decreases s.len(),
{
    if s.len() == 0 || is_space(s[0]) {
        0
    } else {
        1 + token_len(s.drop_first())
    }
}

proof fn lemma_token_len_bounds(s: Seq<char>)
    ensures
        0 <= token_len(s) <= s.len(),
        s.len() > 0 && !is_space(s[0]) ==> token_len(s) >= 1,
    decreases s.len(),
{
    if s.len() > 0 && !is_space(s[0]) {
        lemma_token_len_bounds(s.drop_first());
    }
}

pub proof fn lemma_token_len_at(s: Seq<char>, j: int)
    requires
        0 <= j <= s.len(),
        forall|k: int| 0 <= k < j ==> !is_space(#[trigger] s[k]),
        j == s.len() || is_space(s[j]),
    ensures
        token_len(s) == j,
    decreases j,
{
    if j > 0 {
        let t = s.drop_first();
        lemma_token_len_at(t, j - 1);
    }
}

/// The whitespace-separated tokens of `s`, in order, as
/// `str::split_whitespace` produces them for ASCII whitespace.
pub open spec fn spec_split_ws(s: Seq<char>) -> Seq<Seq<char>>
    decreases s.len(),
    via spec_split_ws_decreases
{
    let t = skip_spaces(s);
    if t.len() == 0 {
        Seq::empty()
    } else {
        seq![t.subrange(0, token_len(t))] + spec_split_ws(
            t.subrange(token_len(t), t.len() as int),
        )
    }
}

proof fn lemma_skip_spaces_len(s: Seq<char>)
    ensures
        skip_spaces(s).len() <= s.len(),
        skip_spaces(s).len() > 0 ==> !is_space(skip_spaces(s)[0]),
    decreases s.len(),
{
    if s.len() > 0 && is_space(s[0]) {
        lemma_skip_spaces_len(s.drop_first());
    }
}

#[via_fn]
proof fn spec_split_ws_decreases(s: Seq<char>) {
    lemma_skip_spaces_len(s);
    lemma_token_len_bounds(skip_spaces(s));
}

/// The maximal non-whitespace prefix really is one: its characters are
/// non-spaces and it ends at a space or at the end.
proof fn lemma_token_len_char(s: Seq<char>)
    ensures
        forall|k: int| 0 <= k < token_len(s) ==> !is_space(#[trigger] s[k]),
        token_len(s) == s.len() || is_space(s[token_len(s)]),
    decreases s.len(),
{
    lemma_token_len_bounds(s);
    if s.len() > 0 && !is_space(s[0]) {
        let t = s.drop_first();
        lemma_token_len_char(t);
        assert(forall|k: int| 1 <= k < token_len(s) ==> s[k] == t[k - 1]);
        if token_len(s) < s.len() {
            assert(s[token_len(s)] == t[token_len(t)]);
        }
    }
}

/// Dropping a trailing space changes no whitespace token.
proof fn lemma_split_ws_drop_trailing(u: Seq<char>)
    requires
        u.len() > 0,
        is_space(u.last()),
    ensures
        spec_split_ws(u) =~= spec_split_ws(u.drop_last()),
    decreases u.len(),
{
    if u.len() == 1 {
        assert(u.drop_first() =~= Seq::<char>::empty());
        assert(skip_spaces(u) == skip_spaces(u.drop_first()));
        assert(u.drop_last() =~= Seq::<char>::empty());
    } else if is_space(u[0]) {
        let v = u.drop_first();
        assert(v.last() == u.last());
        lemma_split_ws_drop_trailing(v);
        assert(u.drop_last()[0] == u[0]);
        assert(u.drop_last().drop_first() =~= v.drop_last());
        assert(spec_split_ws(u) == spec_split_ws(v)) by {
            assert(skip_spaces(u) == skip_spaces(v));
        }
        assert(spec_split_ws(u.drop_last()) == spec_split_ws(u.drop_last().drop_first())) by {
            assert(skip_spaces(u.drop_last()) == skip_spaces(u.drop_last().drop_first()));
        }
    } else {
        // the first token is shared; recurse on the shared remainder
        lemma_token_len_char(u);
        let j = token_len(u);
        assert(1 <= j < u.len()) by {
            lemma_token_len_bounds(u);
            if j == u.len() {
                assert(!is_space(u[u.len() - 1]));
            }
        }
        let w = u.drop_last();
        assert(forall|k: int| 0 <= k < j ==> !is_space(#[trigger] w[k]));
        if j < w.len() {
            assert(w[j] == u[j]);
        }
        lemma_token_len_at(w, j);
        assert(skip_spaces(u) == u) by {
            assert(!is_space(u[0]));
        }
        assert(skip_spaces(w) == w) by {
            assert(!is_space(w[0]));
        }
        assert(w.subrange(0, j) =~= u.subrange(0, j));
        let rest = u.subrange(j, u.len() as int);
        assert(rest.len() > 0 && is_space(rest.last())) by {
            assert(rest.last() == u.last());
        }
        lemma_split_ws_drop_trailing(rest);
        assert(w.subrange(j, w.len() as int) =~= rest.drop_last());
        assert(spec_split_ws(u) == seq![u.subrange(0, j)] + spec_split_ws(rest));
        assert(spec_split_ws(w) == seq![u.subrange(0, j)] + spec_split_ws(rest.drop_last()));
    }
}

/// Whitespace tokenization is invariant under trimming: the tokens of a text
/// and of its trimmed form are the same.
pub proof fn lemma_split_ws_trim(s: Seq<char>)
    ensures
        spec_split_ws(spec_trim(s)) == spec_split_ws(s),
{
    lemma_split_ws_skip_front(s);
    lemma_split_ws_trim_back(skip_spaces(s));
}

proof fn lemma_split_ws_skip_front(s: Seq<char>)
    ensures
        spec_split_ws(skip_spaces(s)) == spec_split_ws(s),
    decreases s.len(),
{
    if s.len() > 0 && is_space(s[0]) {
        lemma_split_ws_skip_front(s.drop_first());
        assert(skip_spaces(s) == skip_spaces(s.drop_first()));
    }
}

proof fn lemma_split_ws_trim_back(t: Seq<char>)
    ensures
        spec_split_ws(trim_end_spaces(t)) == spec_split_ws(t),
    decreases t.len(),
{
    if t.len() > 0 && is_space(t.last()) {
        lemma_split_ws_drop_trailing(t);
        lemma_split_ws_trim_back(t.drop_last());
    }
}

/// Every whitespace token is non-empty.
pub proof fn lemma_split_ws_nonempty(s: Seq<char>)
    ensures
        forall|i: int| 0 <= i < spec_split_ws(s).len() ==> #[trigger] spec_split_ws(s)[i].len() > 0,
    decreases s.len(),
{
    let t = skip_spaces(s);
    lemma_skip_spaces_len(s);
    if t.len() == 0 {
    } else {
        lemma_token_len_bounds(t);
        let rest = t.subrange(token_len(t), t.len() as int);
        lemma_split_ws_nonempty(rest);
        assert(forall|i: int| 1 <= i < spec_split_ws(s).len() ==> #[trigger] spec_split_ws(s)[i]
            == spec_split_ws(rest)[i - 1]);
        assert(spec_split_ws(s)[0].len() == token_len(t));
    }
}

/// After a `Vec` push, the deep view is the old deep view with the view of
/// the new element appended.
pub proof fn lemma_deep_view_push(v: Vec<String>, x: String, w: Vec<String>)
    requires
        w@ == v@.push(x),
    ensures
        w.deep_view() =~= v.deep_view().push(x@),
{
    assert forall|i: int| 0 <= i < w@.len() implies w.deep_view()[i] == v.deep_view().push(x@)[i]
    by {
        if i < v@.len() {
            assert(w@[i] == v@[i]);
        } else {
            assert(w@[i] == x);
        }
    }
}

/// Splits on runs of ASCII whitespace; no empty tokens are produced.
#[verifier::loop_isolation(false)]
pub fn split_ws(s: &str) -> (r: Vec<String>)
    ensures
        r.deep_view() == spec_split_ws(s@),
{
    let n = s.unicode_len();
    let mut r: Vec<String> = Vec::new();
    let mut p: usize = 0;
    proof {
        assert(s@.subrange(0, n as int) =~= s@);
        assert(r.deep_view() =~= Seq::<Seq<char>>::empty());
        assert(r.deep_view() + spec_split_ws(s@) =~= spec_split_ws(s@));
    }
    loop
        invariant
            0 <= p <= n,
            spec_split_ws(s@) == r.deep_view() + spec_split_ws(s@.subrange(p as int, n as int)),
        decreases n - p,
    {
        let mut q = p;
        while q < n && is_space_exec(s.get_char(q))
            invariant
                p <= q <= n,
                forall|k: int| p <= k < q ==> is_space(#[trigger] s@[k]),
            decreases n - q,
        {
            q = q + 1;
        }
        proof {
            let rest = s@.subrange(p as int, n as int);
            assert(forall|k: int| 0 <= k < q - p ==> is_space(#[trigger] rest[k]));
            lemma_skip_spaces_at(rest, q - p);
            assert(rest.subrange(q - p, rest.len() as int) =~= s@.subrange(q as int, n as int));
        }
        if q == n {
            proof {
                assert(spec_split_ws(s@.subrange(p as int, n as int)) =~= Seq::<Seq<char>>::empty());
                assert(r.deep_view() + Seq::<Seq<char>>::empty() =~= r.deep_view());
            }
            return r;
        }
        let mut j = q + 1;
        while j < n && !is_space_exec(s.get_char(j))
            invariant
                q < j <= n,
                forall|k: int| q <= k < j ==> !is_space(#[trigger] s@[k]),
            decreases n - j,
        {
            j = j + 1;
        }
        let tok = s.substring_char(q, j).to_owned();
        let ghost old_r = r;
        r.push(tok);
        proof {
            lemma_deep_view_push(old_r, tok, r);
            let t = s@.subrange(q as int, n as int);
            assert(forall|k: int| 0 <= k < j - q ==> !is_space(#[trigger] t[k]));
            lemma_token_len_at(t, j - q);
            assert(t.subrange(0, j - q) =~= s@.subrange(q as int, j as int));
            assert(t.subrange(j - q, t.len() as int) =~= s@.subrange(j as int, n as int));
            assert(tok@ == s@.subrange(q as int, j as int));
            assert(spec_split_ws(s@.subrange(p as int, n as int)) == seq![tok@] + spec_split_ws(
                s@.subrange(j as int, n as int),
            ));
            assert(r.deep_view() + spec_split_ws(s@.subrange(j as int, n as int)) =~= old_r.deep_view()
                + spec_split_ws(s@.subrange(p as int, n as int)));
        }
        p = j;
    }
}

// ---------------------------------------------------------------------------
// Character search and splitting
// ---------------------------------------------------------------------------
/// Index of the first occurrence of `c` in `s`, if any.
pub open spec fn spec_find_char(s: Seq<char>, c: char) -> Option<int>
    decreases s.len(),
{
    if s.len() == 0 {
        None
    } else if s[0] == c {
        Some(0)
    } else {
        match spec_find_char(s.drop_first(), c) {
            Some(i) => Some(i + 1),
            None => None,
        }
    }
}

pub proof fn lemma_find_char_props(s: Seq<char>, c: char)
    ensures
        match spec_find_char(s, c) {
            Some(i) => 0 <= i < s.len() && s[i] == c && forall|k: int| 0 <= k < i ==> s[k] != c,
            None => forall|k: int| 0 <= k < s.len() ==> s[k] != c,
        },
    decreases s.len(),
{
    if s.len() > 0 && s[0] != c {
        let t = s.drop_first();
        lemma_find_char_props(t, c);
        assert(forall|k: int| 1 <= k < s.len() ==> s[k] == t[k - 1]);
        match spec_find_char(t, c) {
            Some(i) => {
                assert(s[i + 1] == t[i]);
                assert(forall|k: int| 0 <= k < i + 1 ==> s[k] != c) by {
                    assert(forall|k: int| 1 <= k < i + 1 ==> s[k] == t[k - 1] && t[k - 1] != c);
                }
            },
            None => {
                assert(forall|k: int| 0 <= k < s.len() ==> s[k] != c) by {
                    assert(forall|k: int| 1 <= k < s.len() ==> s[k] == t[k - 1] && t[k - 1] != c);
                }
            },
        }
    }
}

/// The converse direction: a witnessed first occurrence pins the spec value.
proof fn lemma_find_char_at(s: Seq<char>, c: char, i: int)
    requires
        0 <= i <= s.len(),
        forall|k: int| 0 <= k < i ==> s[k] != c,
        i == s.len() || s[i] == c,
    ensures
        spec_find_char(s, c) == if i == s.len() {
            None::<int>
        } else {
            Some(i)
        },
    decreases i,
{
    if s.len() > 0 {
        if i == 0 {
            if s.len() == 0 {
            }
        } else {
            lemma_find_char_at(s.drop_first(), c, i - 1);
        }
    }
}

#[verifier::loop_isolation(false)]
pub fn find_char(s: &str, c: char) -> (r: Option<usize>)
    ensures
        match r {
            Some(i) => spec_find_char(s@, c) == Some(i as int),
            None => spec_find_char(s@, c) is None,
        },
{
    let n = s.unicode_len();
    let mut i: usize = 0;
    while i < n
        invariant
            0 <= i <= n,
            forall|k: int| 0 <= k < i ==> s@[k] != c,
        decreases n - i,
    {
        if s.get_char(i) == c {
            proof {
                lemma_find_char_at(s@, c, i as int);
            }
            return Some(i);
        }
        i = i + 1;
    }
    proof {
        lemma_find_char_at(s@, c, n as int);
    }
    None
}

/// Index of the last occurrence of `c` in `s`, if any.
pub open spec fn spec_rfind_char(s: Seq<char>, c: char) -> Option<int>
    decreases s.len(),
{
    if s.len() == 0 {
        None
    } else if s.last() == c {
        Some(s.len() - 1)
    } else {
        spec_rfind_char(s.drop_last(), c)
    }
}

pub proof fn lemma_rfind_char_props(s: Seq<char>, c: char)
    ensures
        match spec_rfind_char(s, c) {
            Some(i) => 0 <= i < s.len() && s[i] == c && forall|k: int| i < k < s.len() ==> s[k] != c,
            None => forall|k: int| 0 <= k < s.len() ==> s[k] != c,
        },
    decreases s.len(),
{
    if s.len() > 0 && s.last() != c {
        let t = s.drop_last();
        lemma_rfind_char_props(t, c);
        assert(forall|k: int| 0 <= k < s.len() - 1 ==> s[k] == t[k]);
        match spec_rfind_char(t, c) {
            Some(i) => {
                assert(s[i] == t[i]);
                assert(forall|k: int| i < k < s.len() ==> s[k] != c) by {
                    assert(forall|k: int| i < k < s.len() - 1 ==> s[k] == t[k] && t[k] != c);
                }
            },
            None => {
                assert(forall|k: int| 0 <= k < s.len() ==> s[k] != c) by {
                    assert(forall|k: int| 0 <= k < s.len() - 1 ==> s[k] == t[k] && t[k] != c);
                }
            },
        }
    }
}

/// A witnessed last occurrence pins the spec value.
pub proof fn lemma_rfind_char_at(s: Seq<char>, c: char, i: int)
    requires
        0 <= i <= s.len(),
        forall|k: int| i <= k < s.len() ==> s[k] != c,
        i == 0 || s[i - 1] == c,
    ensures
        spec_rfind_char(s, c) == if i == 0 {
            None::<int>
        } else {
            Some(i - 1)
        },
    decreases s.len(),
{
    if s.len() > 0 {
        if i == s.len() {
            if s.last() == c {
            } else {
                lemma_rfind_char_at(s.drop_last(), c, i - 1);
            }
        } else {
            lemma_rfind_char_at(s.drop_last(), c, i);
        }
    }
}

#[verifier::loop_isolation(false)]
pub fn rfind_char(s: &str, c: char) -> (r: Option<usize>)
    ensures
        match r {
            Some(i) => spec_rfind_char(s@, c) == Some(i as int),
            None => spec_rfind_char(s@, c) is None,
        },
{
    let n = s.unicode_len();
    let mut i: usize = n;
    while i > 0
        invariant
            0 <= i <= n,
            forall|k: int| i <= k < n ==> s@[k] != c,
        decreases i,
    {
        if s.get_char(i - 1) == c {
            proof {
                lemma_rfind_char_at(s@, c, i as int);
            }
            return Some(i - 1);
        }
        i = i - 1;
    }
    proof {
        lemma_rfind_char_at(s@, c, 0);
    }
    None
}

/// The pieces of `s` between occurrences of `c`, as `str::split` yields them;
/// always at least one piece, and empty pieces are kept.
pub open spec fn spec_split_char(s: Seq<char>, c: char) -> Seq<Seq<char>>
    decreases s.len(),
    via spec_split_char_decreases
{
    match spec_find_char(s, c) {
        None => seq![s],
        Some(i) => seq![s.subrange(0, i)] + spec_split_char(s.subrange(i + 1, s.len() as int), c),
    }
}

#[via_fn]
proof fn spec_split_char_decreases(s: Seq<char>, c: char) {
    lemma_find_char_props(s, c);
}

#[verifier::loop_isolation(false)]
pub fn split_char(s: &str, c: char) -> (r: Vec<String>)
    ensures
        r.deep_view() == spec_split_char(s@, c),
{
    let n = s.unicode_len();
    let mut r: Vec<String> = Vec::new();
    let mut p: usize = 0;
    proof {
        assert(s@.subrange(0, n as int) =~= s@);
        assert(r.deep_view() =~= Seq::<Seq<char>>::empty());
        assert(r.deep_view() + spec_split_char(s@, c) =~= spec_split_char(s@, c));
    }
    loop
        invariant
            0 <= p <= n,
            spec_split_char(s@, c) == r.deep_view() + spec_split_char(
                s@.subrange(p as int, n as int),
                c,
            ),
        decreases n - p,
    {
        let ghost rest = s@.subrange(p as int, n as int);
        let mut j = p;
        while j < n && s.get_char(j) != c
            invariant
                p <= j <= n,
                forall|k: int| p <= k < j ==> s@[k] != c,
            decreases n - j,
        {
            j = j + 1;
        }
        proof {
            assert(forall|k: int| 0 <= k < j - p ==> rest[k] != c);
            lemma_find_char_at(rest, c, j - p);
        }
        let piece = s.substring_char(p, j).to_owned();
        let ghost old_r = r;
        r.push(piece);
        proof {
            lemma_deep_view_push(old_r, piece, r);
            assert(rest.subrange(0, j - p) =~= s@.subrange(p as int, j as int));
        }
        if j == n {
            proof {
                assert(spec_split_char(rest, c) =~= seq![piece@]);
                assert(old_r.deep_view() + seq![piece@] =~= r.deep_view());
            }
            return r;
        }
        proof {
            assert(rest.subrange(j - p + 1, rest.len() as int) =~= s@.subrange(
                j as int + 1,
                n as int,
            ));
            assert(spec_split_char(rest, c) == seq![piece@] + spec_split_char(
                s@.subrange(j as int + 1, n as int),
                c,
            ));
            assert(r.deep_view() + spec_split_char(s@.subrange(j as int + 1, n as int), c)
                =~= old_r.deep_view() + spec_split_char(rest, c));
        }
        p = j + 1;
    }
}

// ---------------------------------------------------------------------------
// Lines
// ---------------------------------------------------------------------------
/// One line as `str::lines` yields it: the text before a `\n`, with one
/// trailing `\r` removed if present.
pub open spec fn strip_cr(l: Seq<char>) -> Seq<char> {
    if l.len() > 0 && l.last() == '\r' {
        l.drop_last()
    } else {
        l
    }
}

/// The lines of `s`, as `str::lines` yields them: split at `\n` or `\r\n`,
/// with no final empty line when the text ends in a line break.
pub open spec fn spec_lines(s: Seq<char>) -> Seq<Seq<char>>
    decreases s.len(),
    via spec_lines_decreases
{
    if s.len() == 0 {
        Seq::empty()
    } else {
        match spec_find_char(s, '\n') {
            None => seq![s],
            Some(i) => seq![strip_cr(s.subrange(0, i))] + spec_lines(
                s.subrange(i + 1, s.len() as int),
            ),
        }
    }
}

#[via_fn]
proof fn spec_lines_decreases(s: Seq<char>) {
    lemma_find_char_props(s, '\n');
}

#[verifier::loop_isolation(false)]
pub fn split_lines(s: &str) -> (r: Vec<String>)
    ensures
        r.deep_view() == spec_lines(s@),
{
    let n = s.unicode_len();
    let mut r: Vec<String> = Vec::new();
    let mut p: usize = 0;
    proof {
        assert(s@.subrange(0, n as int) =~= s@);
        assert(r.deep_view() =~= Seq::<Seq<char>>::empty());
        assert(r.deep_view() + spec_lines(s@) =~= spec_lines(s@));
    }
    loop
        invariant
            0 <= p <= n,
            spec_lines(s@) == r.deep_view() + spec_lines(s@.subrange(p as int, n as int)),
        decreases n - p,
    {
        if p == n {
            proof {
                assert(spec_lines(s@.subrange(p as int, n as int)) =~= Seq::<Seq<char>>::empty());
                assert(r.deep_view() + Seq::<Seq<char>>::empty() =~= r.deep_view());
            }
            return r;
        }
        let ghost rest = s@.subrange(p as int, n as int);
        let mut j = p;
        while j < n && s.get_char(j) != '\n'
            invariant
                p <= j <= n,
                forall|k: int| p <= k < j ==> s@[k] != '\n',
            decreases n - j,
        {
            j = j + 1;
        }
        proof {
            assert(forall|k: int| 0 <= k < j - p ==> rest[k] != '\n');
            lemma_find_char_at(rest, '\n', j - p);
        }
        let end = if j > p && s.get_char(j - 1) == '\r' {
            j - 1
        } else {
            j
        };
        let piece = s.substring_char(p, end).to_owned();
        let ghost old_r = r;
        r.push(piece);
        proof {
            lemma_deep_view_push(old_r, piece, r);
            assert(rest.subrange(0, j - p) =~= s@.subrange(p as int, j as int));
            assert(piece@ =~= strip_cr(s@.subrange(p as int, j as int)));
        }
        if j == n {
            proof {
                // no newline in the remainder: the whole rest is one line,
                // with its carriage return kept by `str::lines`
                assert(rest =~= s@.subrange(p as int, j as int));
                assert(spec_lines(rest) =~= seq![rest]);
                assert(piece@ =~= strip_cr(rest));
            }
            // `str::lines` keeps a lone trailing `\r` when no `\n` follows
            if end < j {
                let piece2 = s.substring_char(p, j).to_owned();
                let _ = r.pop();
                let ghost mid_r = r;
                r.push(piece2);
                proof {
                    assert(mid_r@ =~= old_r@);
                    assert(mid_r.deep_view() =~= old_r.deep_view());
                    lemma_deep_view_push(mid_r, piece2, r);
                    assert(old_r.deep_view() + seq![piece2@] =~= r.deep_view());
                }
                return r;
            }
            proof {
                assert(old_r.deep_view() + seq![piece@] =~= r.deep_view());
            }
            return r;
        }
        proof {
            assert(rest.subrange(j - p + 1, rest.len() as int) =~= s@.subrange(
                j as int + 1,
                n as int,
            ));
            assert(spec_lines(rest) == seq![piece@] + spec_lines(
                s@.subrange(j as int + 1, n as int),
            ));
            assert(r.deep_view() + spec_lines(s@.subrange(j as int + 1, n as int))
                =~= old_r.deep_view() + spec_lines(rest));
        }
        p = j + 1;
    }
}

// ---------------------------------------------------------------------------
// Prefix, suffix, equality, substring search
// ---------------------------------------------------------------------------
pub open spec fn spec_starts_with(s: Seq<char>, p: Seq<char>) -> bool {
    p.len() <= s.len() && s.subrange(0, p.len() as int) == p
}

pub open spec fn spec_ends_with(s: Seq<char>, p: Seq<char>) -> bool {
    p.len() <= s.len() && s.subrange(s.len() - p.len(), s.len() as int) == p
}

/// Character-for-character string equality.
#[verifier::loop_isolation(false)]
pub fn str_eq(a: &str, b: &str) -> (r: bool)
    ensures
        r == (a@ == b@),
{
    let n = a.unicode_len();
    if n != b.unicode_len() {
        return false;
    }
    let mut i: usize = 0;
    while i < n
        invariant
            0 <= i <= n,
            forall|k: int| 0 <= k < i ==> a@[k] == b@[k],
        decreases n - i,
    {
        if a.get_char(i) != b.get_char(i) {
            return false;
        }
        i = i + 1;
    }
    proof {
        assert(a@ =~= b@);
    }
    true
}

#[verifier::loop_isolation(false)]
pub fn starts_with(s: &str, p: &str) -> (r: bool)
    ensures
        r == spec_starts_with(s@, p@),
{
    let m = p.unicode_len();
    if m > s.unicode_len() {
        return false;
    }
    let head = s.substring_char(0, m);
    str_eq(head, p)
}

#[verifier::loop_isolation(false)]
pub fn ends_with(s: &str, p: &str) -> (r: bool)
    ensures
        r == spec_ends_with(s@, p@),
{
    let m = p.unicode_len();
    let n = s.unicode_len();
    if m > n {
        return false;
    }
    let tail = s.substring_char(n - m, n);
    str_eq(tail, p)
}

/// There is an occurrence of `pat` at position `i` of `s`.
pub open spec fn match_at(s: Seq<char>, pat: Seq<char>, i: int) -> bool {
    0 <= i && i + pat.len() <= s.len() && s.subrange(i, i + pat.len()) == pat
}

pub open spec fn spec_contains(s: Seq<char>, pat: Seq<char>) -> bool {
    exists|i: int| match_at(s, pat, i)
}

/// Index of the first occurrence of `pat` in `s`, if any.
pub open spec fn spec_find_sub(s: Seq<char>, pat: Seq<char>) -> Option<int> {
    if spec_contains(s, pat) {
        Some(choose|i: int| match_at(s, pat, i) && forall|k: int| 0 <= k < i ==> !match_at(s, pat, k))
    } else {
        None
    }
}

/// A witnessed first occurrence (or its absence) pins down `spec_find_sub`.
proof fn lemma_find_sub_at(s: Seq<char>, pat: Seq<char>, i: int)
    requires
        forall|k: int| 0 <= k < i ==> !match_at(s, pat, k),
        match_at(s, pat, i),
    ensures
        spec_find_sub(s, pat) == Some(i),
{
    assert(spec_contains(s, pat));
    let w = choose|j: int| match_at(s, pat, j) && forall|k: int| 0 <= k < j ==> !match_at(s, pat, k);
    if w < i {
        assert(!match_at(s, pat, w));
    }
    if w > i {
        assert(!match_at(s, pat, i));
    }
}

#[verifier::loop_isolation(false)]
pub fn find_sub(s: &str, pat: &str) -> (r: Option<usize>)
    ensures
        match r {
            Some(i) => spec_find_sub(s@, pat@) == Some(i as int),
            None => !spec_contains(s@, pat@),
        },
{
    let n = s.unicode_len();
    let m = pat.unicode_len();
    if m > n {
        proof {
            assert(forall|i: int| !match_at(s@, pat@, i));
        }
        return None;
    }
    if m == 0 {
        proof {
            assert(s@.subrange(0, 0) =~= pat@);
            lemma_find_sub_at(s@, pat@, 0);
        }
        return Some(0);
    }
    let mut i: usize = 0;
    while i <= n - m
        invariant
            0 <= i <= n - m + 1,
            0 < m <= n,
            forall|k: int| 0 <= k < i ==> !match_at(s@, pat@, k),
        decreases n - i,
    {
        let cand = s.substring_char(i, i + m);
        if str_eq(cand, pat) {
            proof {
                lemma_find_sub_at(s@, pat@, i as int);
            }
            return Some(i);
        }
        proof {
            assert(!match_at(s@, pat@, i as int));
        }
        i = i + 1;
    }
    proof {
        assert(forall|k: int| 0 <= k < s@.len() && match_at(s@, pat@, k) ==> k <= n - m);
    }
    None
}

pub fn contains_sub(s: &str, pat: &str) -> (r: bool)
    ensures
        r == spec_contains(s@, pat@),
{
    match find_sub(s, pat) {
        Some(_) => {
            proof {
                lemma_find_sub_props(s@, pat@);
            }
            true
        },
        None => false,
    }
}

pub proof fn lemma_find_sub_props(s: Seq<char>, pat: Seq<char>)
    ensures
        match spec_find_sub(s, pat) {
            Some(i) => match_at(s, pat, i) && forall|k: int| 0 <= k < i ==> !match_at(s, pat, k),
            None => !spec_contains(s, pat),
        },
{
    if spec_contains(s, pat) {
        let w = choose|j: int|
            match_at(s, pat, j) && forall|k: int| 0 <= k < j ==> !match_at(s, pat, k);
        if exists|j: int|
            match_at(s, pat, j) && forall|k: int| 0 <= k < j ==> !match_at(s, pat, k) {
        } else {
            lemma_first_match_exists(s, pat);
        }
    }
}

/// If some match exists, a first match exists.
proof fn lemma_first_match_exists(s: Seq<char>, pat: Seq<char>)
    requires
        spec_contains(s, pat),
    ensures
        exists|j: int| match_at(s, pat, j) && forall|k: int| 0 <= k < j ==> !match_at(s, pat, k),
{
    let w = choose|i: int| match_at(s, pat, i);
    lemma_first_match_below(s, pat, w);
}

proof fn lemma_first_match_below(s: Seq<char>, pat: Seq<char>, w: int)
    requires
        match_at(s, pat, w),
    ensures
        exists|j: int| match_at(s, pat, j) && forall|k: int| 0 <= k < j ==> !match_at(s, pat, k),
    decreases w,
{
    if exists|k: int| 0 <= k < w && match_at(s, pat, k) {
        let w2 = choose|k: int| 0 <= k < w && match_at(s, pat, k);
        lemma_first_match_below(s, pat, w2);
    } else {
        assert(match_at(s, pat, w) && forall|k: int| 0 <= k < w ==> !match_at(s, pat, k));
    }
}

// ---------------------------------------------------------------------------
// More numeric parsers
// ---------------------------------------------------------------------------
/// What `str::parse::<u32>` accepts.
pub open spec fn spec_parse_u32(s: Seq<char>) -> Option<u32> {
    match spec_parse_u64(s) {
        Some(v) => if v <= u32::MAX {
            Some(v as u32)
        } else {
            None
        },
        None => None,
    }
}

pub fn parse_u32(s: &str) -> (r: Option<u32>)
    ensures
        r == spec_parse_u32(s@),
{
    match parse_u64(s) {
        Some(v) => if v <= u32::MAX as u64 {
            Some(v as u32)
        } else {
            None
        },
        None => None,
    }
}

/// What `str::parse::<u8>` accepts.
pub open spec fn spec_parse_u8(s: Seq<char>) -> Option<u8> {
    match spec_parse_u64(s) {
        Some(v) => if v <= u8::MAX {
            Some(v as u8)
        } else {
            None
        },
        None => None,
    }
}

pub fn parse_u8(s: &str) -> (r: Option<u8>)
    ensures
        r == spec_parse_u8(s@),
{
    match parse_u64(s) {
        Some(v) => if v <= u8::MAX as u64 {
            Some(v as u8)
        } else {
            None
        },
        None => None,
    }
}

/// A token's unsigned value, zero when it is not a number.
pub open spec fn spec_u64_or0(t: Seq<char>) -> u64 {
    match spec_parse_u64(t) {
        Some(v) => v,
        None => 0u64,
    }
}

pub fn u64_or0(t: &str) -> (r: u64)
    ensures
        r == spec_u64_or0(t@),
{
    match parse_u64(t) {
        Some(v) => v,
        None => 0,
    }
}

/// The digit body and sign of a signed number literal.
pub open spec fn signed_body(s: Seq<char>) -> Seq<char> {
    if s.len() > 0 && (s[0] == '-' || s[0] == '+') {
        s.subrange(1, s.len() as int)
    } else {
        s
    }
}

pub open spec fn spec_is_negative(s: Seq<char>) -> bool {
    s.len() > 0 && s[0] == '-'
}

/// What `str::parse::<i64>` accepts: an optional sign, then digits, with the
/// value in `i64` range.
pub open spec fn spec_parse_i64(s: Seq<char>) -> Option<i64> {
    let body = signed_body(s);
    if body.len() > 0 && all_digits(body) {
        if spec_is_negative(s) {
            if digits_value(body) <= 0x8000_0000_0000_0000 {
                Some((-digits_value(body)) as i64)
            } else {
                None
            }
        } else {
            if digits_value(body) <= i64::MAX {
                Some(digits_value(body) as i64)
            } else {
                None
            }
        }
    } else {
        None
    }
}

pub fn parse_i64(s: &str) -> (r: Option<i64>)
    ensures
        r == spec_parse_i64(s@),
{
    let n = s.unicode_len();
    if n == 0 {
        return None;
    }
    let c0 = s.get_char(0);
    let neg = c0 == '-';
    let rest = if c0 == '-' || c0 == '+' {
        s.substring_char(1, n)
    } else {
        s
    };
    proof {
        if c0 == '-' || c0 == '+' {
            assert(rest@ =~= signed_body(s@));
        } else {
            assert(rest@ =~= signed_body(s@));
        }
    }
    // the remaining text must be bare digits: a second sign is not accepted
    if rest.unicode_len() > 0 && (rest.get_char(0) == '-' || rest.get_char(0) == '+') {
        return None;
    }
    match parse_u64(rest) {
        Some(v) => {
            proof {
                lemma_digits_value_nonneg(rest@);
            }
            if neg {
                if v <= 0x8000_0000_0000_0000u64 {
                    if v == 0x8000_0000_0000_0000u64 {
                        Some(i64::MIN)
                    } else {
                        Some(-(v as i64))
                    }
                } else {
                    None
                }
            } else {
                if v <= i64::MAX as u64 {
                    Some(v as i64)
                } else {
                    None
                }
            }
        },
        None => {
            proof {
                if rest@.len() > 0 && all_digits(rest@) {
                    lemma_digits_value_nonneg(rest@);
                }
            }
            None
        },
    }
}

/// What `str::parse::<i32>` accepts.
pub open spec fn spec_parse_i32(s: Seq<char>) -> Option<i32> {
    match spec_parse_i64(s) {
        Some(v) => if i32::MIN <= v <= i32::MAX {
            Some(v as i32)
        } else {
            None
        },
        None => None,
    }
}

pub fn parse_i32(s: &str) -> (r: Option<i32>)
    ensures
        r == spec_parse_i32(s@),
{
    match parse_i64(s) {
        Some(v) => if i32::MIN as i64 <= v && v <= i32::MAX as i64 {
            Some(v as i32)
        } else {
            None
        },
        None => None,
    }
}

// ---------------------------------------------------------------------------
// Joining tokens
// ---------------------------------------------------------------------------
/// The tokens from index `k` on, joined with single spaces.
pub open spec fn spec_join_from(toks: Seq<Seq<char>>, k: int) -> Seq<char>
    decreases toks.len() - k,
{
    if k < 0 || k >= toks.len() {
        Seq::empty()
    } else if k == toks.len() - 1 {
        toks[k]
    } else {
        toks[k] + seq![' '] + spec_join_from(toks, k + 1)
    }
}

/// Joins `toks[k..]` with single spaces, as `[..].join(" ")` does.
#[verifier::loop_isolation(false)]
pub fn join_from(toks: &Vec<String>, k: usize) -> (r: String)
    requires
        k <= toks@.len(),
    ensures
        r@ == spec_join_from(toks.deep_view(), k as int),
{
    let n = toks.len();
    let mut r = String::new();
    if k >= n {
        return r;
    }
    let mut i: usize = k;
    proof {
        reveal_strlit(" ");
    }
    while i < n
        invariant
            k <= i <= n,
            k < n,
            n == toks@.len(),
            i == k ==> r@ =~= Seq::<char>::empty(),
            k < i < n ==> spec_join_from(toks.deep_view(), k as int) == r@ + seq![' ']
                + spec_join_from(toks.deep_view(), i as int),
            i == n ==> spec_join_from(toks.deep_view(), k as int) == r@,
        decreases n - i,
    {
        let ghost r_before = r@;
        if i > k {
            r.append(" ");
            proof {
                assert(" "@ =~= seq![' ']);
                assert(r@ =~= r_before + seq![' ']);
            }
        }
        let ghost r_mid = r@;
        let t = &toks[i];
        r.append(t.as_str());
        proof {
            let dv = toks.deep_view();
            assert(dv[i as int] == toks@[i as int]@);
            assert(r@ =~= r_mid + dv[i as int]);
            if i + 1 < n {
                assert(spec_join_from(dv, i as int) == dv[i as int] + seq![' '] + spec_join_from(
                    dv,
                    i as int + 1,
                ));
                if i == k {
                    assert(r@ =~= dv[i as int]);
                    assert(spec_join_from(dv, k as int) =~= r@ + seq![' '] + spec_join_from(
                        dv,
                        i as int + 1,
                    ));
                } else {
                    assert(spec_join_from(dv, k as int) =~= r@ + seq![' '] + spec_join_from(
                        dv,
                        i as int + 1,
                    ));
                }
            } else {
                assert(spec_join_from(dv, i as int) == dv[i as int]);
                if i == k {
                    assert(spec_join_from(dv, k as int) =~= r@);
                } else {
                    assert(spec_join_from(dv, k as int) =~= r@);
                }
            }
        }
        i = i + 1;
    }
    r
}

// ---------------------------------------------------------------------------
// Prefix stripping and character trimming
// ---------------------------------------------------------------------------
/// `s` with every repetition of the leading pattern `p` removed, as
/// `str::trim_start_matches` does.
pub open spec fn spec_strip_all(s: Seq<char>, p: Seq<char>) -> Seq<char>
    decreases s.len(),
{
    if p.len() > 0 && spec_starts_with(s, p) {
        spec_strip_all(s.subrange(p.len() as int, s.len() as int), p)
    } else {
        s
    }
}

#[verifier::loop_isolation(false)]
pub fn strip_all(s: &str, p: &str) -> (r: String)
    ensures
        r@ == spec_strip_all(s@, p@),
    decreases s@.len(),
{
    let m = p.unicode_len();
    if m > 0 && starts_with(s, p) {
        let rest = s.substring_char(m, s.unicode_len());
        strip_all(rest, p)
    } else {
        s.to_owned()
    }
}

/// `s` with leading and trailing copies of `c` removed, as
/// `str::trim_matches(c)` does.
pub open spec fn skip_char_front(s: Seq<char>, c: char) -> Seq<char>
    decreases s.len(),
{
    if s.len() > 0 && s[0] == c {
        skip_char_front(s.drop_first(), c)
    } else {
        s
    }
}

pub open spec fn skip_char_back(s: Seq<char>, c: char) -> Seq<char>
    decreases s.len(),
{
    if s.len() > 0 && s.last() == c {
        skip_char_back(s.drop_last(), c)
    } else {
        s
    }
}

pub open spec fn spec_trim_char(s: Seq<char>, c: char) -> Seq<char> {
    skip_char_back(skip_char_front(s, c), c)
}

pub proof fn lemma_skip_char_front_at(s: Seq<char>, c: char, q: int)
    requires
        0 <= q <= s.len(),
        forall|k: int| 0 <= k < q ==> #[trigger] s[k] == c,
        q == s.len() || s[q] != c,
    ensures
        skip_char_front(s, c) =~= s.subrange(q, s.len() as int),
    decreases q,
{
    if q == 0 {
        assert(s.subrange(0, s.len() as int) =~= s);
    } else {
        let t = s.drop_first();
        lemma_skip_char_front_at(t, c, q - 1);
        assert(t.subrange(q - 1, t.len() as int) =~= s.subrange(q, s.len() as int));
    }
}

pub proof fn lemma_skip_char_back_at(s: Seq<char>, c: char, b: int)
    requires
        0 <= b <= s.len(),
        forall|k: int| b <= k < s.len() ==> #[trigger] s[k] == c,
        b == 0 || s[b - 1] != c,
    ensures
        skip_char_back(s, c) =~= s.subrange(0, b),
    decreases s.len(),
{
    if b == s.len() {
        if s.len() == 0 {
        } else {
            assert(s.subrange(0, b) =~= s);
        }
    } else {
        lemma_skip_char_back_at(s.drop_last(), c, b);
        assert(s.drop_last().subrange(0, b) =~= s.subrange(0, b));
    }
}

#[verifier::loop_isolation(false)]
pub fn trim_char(s: &str, c: char) -> (r: &str)
    ensures
        r@ == spec_trim_char(s@, c),
{
    let n = s.unicode_len();
    let mut a: usize = 0;
    while a < n && s.get_char(a) == c
        invariant
            0 <= a <= n,
            forall|k: int| 0 <= k < a ==> #[trigger] s@[k] == c,
        decreases n - a,
    {
        a = a + 1;
    }
    proof {
        lemma_skip_char_front_at(s@, c, a as int);
    }
    let mut b: usize = n;
    while b > a && s.get_char(b - 1) == c
        invariant
            a <= b <= n,
            forall|k: int| b <= k < n ==> #[trigger] s@[k] == c,
        decreases b,
    {
        b = b - 1;
    }
    proof {
        let mid = s@.subrange(a as int, n as int);
        assert(forall|k: int| b - a <= k < mid.len() ==> #[trigger] mid[k] == c);
        lemma_skip_char_back_at(mid, c, b - a);
        assert(mid.subrange(0, b - a) =~= s@.subrange(a as int, b as int));
    }
    s.substring_char(a, b)
}

/// The text after a required prefix, as `str::strip_prefix` gives it.
pub fn strip_prefix<'a>(s: &'a str, p: &str) -> (r: Option<&'a str>)
    ensures
        match r {
            Some(t) => spec_starts_with(s@, p@) && t@ == s@.subrange(p@.len() as int, s@.len() as int),
            None => !spec_starts_with(s@, p@),
        },
{
    if starts_with(s, p) {
        Some(s.substring_char(p.unicode_len(), s.unicode_len()))
    } else {
        None
    }
}

// ---------------------------------------------------------------------------
// Membership of a string in a vector
// ---------------------------------------------------------------------------
#[verifier::loop_isolation(false)]
pub fn vec_contains_str(v: &Vec<String>, x: &str) -> (r: bool)
    ensures
        r == v.deep_view().contains(x@),
{
    let n = v.len();
    let mut i: usize = 0;
    while i < n
        invariant
            0 <= i <= n,
            n == v@.len(),
            forall|k: int| 0 <= k < i ==> v.deep_view()[k] != x@,
        decreases n - i,
    {
        if str_eq(v[i].as_str(), x) {
            assert(v.deep_view()[i as int] == x@);
            return true;
        }
        proof {
            assert(v.deep_view()[i as int] == v@[i as int]@);
        }
        i = i + 1;
    }
    proof {
        if v.deep_view().contains(x@) {
            let w = choose|k: int| 0 <= k < v.deep_view().len() && v.deep_view()[k] == x@;
            assert(v.deep_view()[w] != x@);
        }
    }
    false
}

// ---------------------------------------------------------------------------
// Building text from ASCII bytes
// ---------------------------------------------------------------------------
/// Relies on String::from_utf8: bytes below 128 are valid and decode to
/// exactly one character each, in order.
#[verifier::external_body]
pub(crate) fn string_from_ascii(v: Vec<u8>) -> (r: String)
    requires
        forall|i: int| 0 <= i < v@.len() ==> v@[i] < 128,
    ensures
        r@ == v@.map_values(|b: u8| b as char),
{
    String::from_utf8(v).unwrap_or_default()
}

// ---------------------------------------------------------------------------
// ASCII case folding
// ---------------------------------------------------------------------------
/// Lowercases an ASCII letter; other characters are unchanged.
pub open spec fn lower_char(c: char) -> char {
    if 'A' <= c && c <= 'Z' {
        ((c as u8) + 32) as char
    } else {
        c
    }
}

pub fn lower_char_exec(c: char) -> (r: char)
    ensures
        r == lower_char(c),
{
    if 'A' <= c && c <= 'Z' {
        ((c as u8) + 32) as char
    } else {
        c
    }
}

/// The ASCII-lowercased text.
pub open spec fn spec_ascii_lower(s: Seq<char>) -> Seq<char> {
    s.map_values(|c: char| lower_char(c))
}

/// Lowercasing fixes punctuation, whitespace, digits and dots: only letters
/// move, and a character whose lowercase form is not a letter was already
/// that character.
pub proof fn lemma_lower_fixed(c: char)
    ensures
        (lower_char(c) == ':') == (c == ':'),
        (lower_char(c) == '=') == (c == '='),
        is_space(lower_char(c)) == is_space(c),
        is_dec_char(lower_char(c)) == is_dec_char(c),
        is_dec_char(c) ==> lower_char(c) == c,
{
}

// ---------------------------------------------------------------------------
// Shell quoting
// ---------------------------------------------------------------------------
/// The text with every single quote replaced by the escape sequence
/// `'\''`, as needed inside a single-quoted shell word.
pub open spec fn spec_quote_escaped(s: Seq<char>) -> Seq<char>
    decreases s.len(),
{
    if s.len() == 0 {
        s
    } else {
        (if s[0] == '\'' {
            seq!['\'', '\\', '\'', '\'']
        } else {
            seq![s[0]]
        }) + spec_quote_escaped(s.drop_first())
    }
}

proof fn lemma_quote_escaped_no_quotes(s: Seq<char>)
    requires
        forall|k: int| 0 <= k < s.len() ==> s[k] != '\'',
    ensures
        spec_quote_escaped(s) =~= s,
    decreases s.len(),
{
    if s.len() > 0 {
        lemma_quote_escaped_no_quotes(s.drop_first());
        assert(seq![s[0]] + s.drop_first() =~= s);
    }
}

proof fn lemma_quote_escaped_concat(a: Seq<char>, b: Seq<char>)
    ensures
        spec_quote_escaped(a + b) =~= spec_quote_escaped(a) + spec_quote_escaped(b),
    decreases a.len(),
{
    if a.len() == 0 {
        assert(a + b =~= b);
        assert(spec_quote_escaped(a) + spec_quote_escaped(b) =~= spec_quote_escaped(b));
    } else {
        lemma_quote_escaped_concat(a.drop_first(), b);
        assert((a + b).drop_first() =~= a.drop_first() + b);
        assert((a + b)[0] == a[0]);
        if a[0] == '\'' {
            assert(spec_quote_escaped(a + b) =~= seq!['\'', '\\', '\'', '\''] + (spec_quote_escaped(
                a.drop_first(),
            ) + spec_quote_escaped(b)));
            assert(seq!['\'', '\\', '\'', '\''] + (spec_quote_escaped(a.drop_first())
                + spec_quote_escaped(b)) =~= (seq!['\'', '\\', '\'', '\''] + spec_quote_escaped(
                a.drop_first(),
            )) + spec_quote_escaped(b));
        } else {
            assert(spec_quote_escaped(a + b) =~= seq![a[0]] + (spec_quote_escaped(a.drop_first())
                + spec_quote_escaped(b)));
            assert(seq![a[0]] + (spec_quote_escaped(a.drop_first()) + spec_quote_escaped(b)) =~= (
            seq![a[0]] + spec_quote_escaped(a.drop_first())) + spec_quote_escaped(b));
        }
    }
}

/// Escapes single quotes for embedding in a single-quoted shell word.
#[verifier::loop_isolation(false)]
pub fn quote_escape(s: &str) -> (r: String)
    ensures
        r@ == spec_quote_escaped(s@),
{
    let n = s.unicode_len();
    let mut r = String::new();
    let mut p: usize = 0;
    proof {
        reveal_strlit("'\\''");
        assert("'\\''"@ =~= seq!['\'', '\\', '\'', '\'']);
        assert(s@.subrange(0, 0) =~= Seq::<char>::empty());
        assert(spec_quote_escaped(s@.subrange(0, 0)) =~= Seq::<char>::empty());
    }
    while p < n
        invariant
            0 <= p <= n,
            r@ == spec_quote_escaped(s@.subrange(0, p as int)),
        decreases n - p,
    {
        let mut j = p;
        while j < n && s.get_char(j) != '\''
            invariant
                p <= j <= n,
                forall|k: int| p <= k < j ==> s@[k] != '\'',
            decreases n - j,
        {
            j = j + 1;
        }
        let ghost r_before = r@;
        let seg = s.substring_char(p, j);
        r.append(seg);
        proof {
            lemma_quote_escaped_no_quotes(seg@);
            lemma_quote_escaped_concat(s@.subrange(0, p as int), seg@);
            assert(s@.subrange(0, p as int) + seg@ =~= s@.subrange(0, j as int));
            assert(r@ =~= spec_quote_escaped(s@.subrange(0, j as int)));
        }
        if j < n {
            let ghost r_mid = r@;
            r.append("'\\''");
            proof {
                let pref = s@.subrange(0, j as int);
                let q = s@.subrange(j as int, j as int + 1);
                assert(q =~= seq![s@[j as int]]);
                assert(s@[j as int] == '\'');
                lemma_quote_escaped_concat(pref, q);
                assert(q.drop_first() =~= Seq::<char>::empty());
                assert(spec_quote_escaped(q) =~= seq!['\'', '\\', '\'', '\''] + spec_quote_escaped(
                    Seq::<char>::empty(),
                ));
                assert(spec_quote_escaped(q) =~= seq!['\'', '\\', '\'', '\'']);
                assert(pref + q =~= s@.subrange(0, j as int + 1));
                assert(r@ =~= spec_quote_escaped(s@.subrange(0, j as int + 1)));
            }
            p = j + 1;
        } else {
            p = j;
        }
    }
    proof {
        assert(s@.subrange(0, n as int) =~= s@);
    }
    r
}

// ---------------------------------------------------------------------------
// Truncated decimal values
// ---------------------------------------------------------------------------
/// Value of a digit run, capped at `cap`.
pub open spec fn capped_digits(s: Seq<char>, cap: int) -> int {
    if digits_value(s) > cap {
        cap
    } else {
        digits_value(s)
    }
}

/// Computes `capped_digits` over `s[from..to]`, which must be all digits.
#[verifier::loop_isolation(false)]
pub fn digits_value_capped(s: &str, from: usize, to: usize, cap: u64) -> (r: u64)
    requires
        from <= to <= s@.len(),
        all_digits(s@.subrange(from as int, to as int)),
    ensures
        r == capped_digits(s@.subrange(from as int, to as int), cap as int),
{
    let mut i = from;
    let mut acc: u64 = 0;
    proof {
        assert(s@.subrange(from as int, from as int) =~= Seq::<char>::empty());
    }
    while i < to
        invariant
            from <= i <= to,
            acc == capped_digits(s@.subrange(from as int, i as int), cap as int),
            acc <= cap,
        decreases to - i,
    {
        let c = s.get_char(i);
        proof {
            let whole = s@.subrange(from as int, to as int);
            assert(whole[i - from] == s@[i as int]);
            assert(is_digit(s@[i as int]));
            let ext = s@.subrange(from as int, i as int + 1);
            assert(ext.drop_last() =~= s@.subrange(from as int, i as int));
            lemma_digits_value_nonneg_any(s@.subrange(from as int, i as int));
        }
        let d: u64 = (c as u32 - '0' as u32) as u64;
        if acc > cap / 10 || (acc == cap / 10 && d > cap % 10) {
            // the true value already exceeds the cap and only grows
            proof {
                let ext = s@.subrange(from as int, i as int + 1);
                lemma_capped_digits_stays(s@, from as int, i as int + 1, to as int, cap as int);
            }
            return cap;
        }
        acc = acc * 10 + d;
        i = i + 1;
    }
    acc
}

proof fn lemma_digits_value_nonneg_any(s: Seq<char>)
    ensures
        all_digits(s) ==> digits_value(s) >= 0,
    decreases s.len(),
{
    if s.len() > 0 {
        lemma_digits_value_nonneg_any(s.drop_last());
        assert(all_digits(s) ==> all_digits(s.drop_last())) by {
            if all_digits(s) {
                assert(forall|k: int| 0 <= k < s.len() - 1 ==> is_digit(#[trigger] s.drop_last()[k]));
            }
        }
    }
}

/// Once a digit prefix exceeds the cap, every longer prefix does too.
proof fn lemma_capped_digits_stays(s: Seq<char>, from: int, mid: int, to: int, cap: int)
    requires
        0 <= from <= mid <= to <= s.len(),
        mid > from,
        cap >= 0,
        all_digits(s.subrange(from, to)),
        digits_value(s.subrange(from, mid)) > cap,
    ensures
        digits_value(s.subrange(from, to)) > cap,
    decreases to - mid,
{
    if mid == to {
    } else {
        let p = s.subrange(from, mid + 1);
        assert(p.drop_last() =~= s.subrange(from, mid));
        assert(is_digit(p.last())) by {
            let whole = s.subrange(from, to);
            assert(whole[mid - from] == s[mid]);
        }
        assert(digit_val(p.last()) >= 0);
        assert(digits_value(p) > cap);
        lemma_capped_digits_stays(s, from, mid + 1, to, cap);
    }
}

/// A digit or a decimal point: the characters a simple decimal literal holds.
pub open spec fn is_dec_char(c: char) -> bool {
    is_digit(c) || c == '.'
}

/// Length of the maximal prefix of digits and dots.
pub open spec fn dec_run_len(s: Seq<char>) -> int
    decreases s.len(),
{
    if s.len() > 0 && is_dec_char(s[0]) {
        1 + dec_run_len(s.drop_first())
    } else {
        0
    }
}

pub proof fn lemma_dec_run_at(s: Seq<char>, j: int)
    requires
        0 <= j <= s.len(),
        forall|k: int| 0 <= k < j ==> is_dec_char(#[trigger] s[k]),
        j == s.len() || !is_dec_char(s[j]),
    ensures
        dec_run_len(s) == j,
    decreases j,
{
    if j > 0 {
        lemma_dec_run_at(s.drop_first(), j - 1);
    }
}

/// Two distinct positions both hold a decimal point.
pub open spec fn two_dots(s: Seq<char>) -> bool {
    exists|i: int, j: int| 0 <= i < j < s.len() && s[i] == '.' && s[j] == '.'
}

pub open spec fn has_digit(s: Seq<char>) -> bool {
    exists|i: int| 0 <= i < s.len() && is_digit(#[trigger] s[i])
}

/// The integer part of a simple decimal literal made only of digits and at
/// most one dot: what parsing it as a real number and truncating toward zero
/// yields.  Anything else (a second dot, a stray character, no digit) is
/// rejected, as `str::parse::<f64>` rejects it.
pub open spec fn spec_decimal_value(s: Seq<char>) -> Option<int> {
    if (forall|k: int| 0 <= k < s.len() ==> is_dec_char(#[trigger] s[k])) && !two_dots(s)
        && has_digit(s) {
        Some(
            digits_value(
                match spec_find_char(s, '.') {
                    Some(i) => s.subrange(0, i),
                    None => s,
                },
            ),
        )
    } else {
        None
    }
}

/// A parsed decimal value is never negative.
pub proof fn lemma_decimal_nonneg(s: Seq<char>)
    ensures
        match spec_decimal_value(s) {
            Some(v) => v >= 0,
            None => true,
        },
{
    if spec_decimal_value(s) is Some {
        let part = match spec_find_char(s, '.') {
            Some(i) => s.subrange(0, i),
            None => s,
        };
        lemma_find_char_props(s, '.');
        assert(all_digits(part));
        lemma_digits_value_nonneg(part);
    }
}

/// Parses a simple decimal literal and truncates it toward zero, capping the
/// result at `cap`, as casting a parsed real number to a narrower unsigned
/// integer does.
#[verifier::loop_isolation(false)]
pub fn decimal_trunc(s: &str, cap: u64) -> (r: Option<u64>)
    ensures
        match spec_decimal_value(s@) {
            Some(v) => r == Some(
                (if v > cap {
                    cap as int
                } else {
                    v
                }) as u64,
            ),
            None => r is None,
        },
{
    let n = s.unicode_len();
    let mut k: usize = 0;
    while k < n
        invariant
            0 <= k <= n,
            forall|j: int| 0 <= j < k ==> is_dec_char(#[trigger] s@[j]),
        decreases n - k,
    {
        let c = s.get_char(k);
        if !(('0' <= c && c <= '9') || c == '.') {
            return None;
        }
        k = k + 1;
    }
    let mut hd: bool = false;
    let mut k2: usize = 0;
    while k2 < n
        invariant
            0 <= k2 <= n,
            hd == exists|j: int| 0 <= j < k2 && is_digit(#[trigger] s@[j]),
        decreases n - k2,
    {
        let c = s.get_char(k2);
        if '0' <= c && c <= '9' {
            hd = true;
            proof {
                assert(is_digit(s@[k2 as int]));
            }
            k2 = n;
        } else {
            k2 = k2 + 1;
        }
    }
    if !hd {
        proof {
            if has_digit(s@) {
                let w = choose|j: int| 0 <= j < s@.len() && is_digit(#[trigger] s@[j]);
                assert(is_digit(s@[w]));
            }
        }
        return None;
    }
    let fd = find_char(s, '.');
    proof {
        lemma_find_char_props(s@, '.');
    }
    match fd {
        Some(i) => {
            let rest = s.substring_char(i + 1, n);
            let second = find_char(rest, '.');
            proof {
                lemma_find_char_props(rest@, '.');
            }
            if second.is_some() {
                proof {
                    let j = second->Some_0 as int;
                    assert(rest@[j] == s@[i + 1 + j]);
                    assert((i as int) < i + 1 + j && i + 1 + j < s@.len());
                    assert(two_dots(s@));
                }
                return None;
            }
            proof {
                if two_dots(s@) {
                    let (p, q) = choose|p: int, q: int|
                        0 <= p < q < s@.len() && s@[p] == '.' && s@[q] == '.';
                    assert(p >= i);
                    assert(q > i);
                    assert(rest@[q - i - 1] == s@[q]);
                }
                assert(forall|j: int| 0 <= j < i ==> is_dec_char(#[trigger] s@[j]));
                assert(forall|j: int|
                    0 <= j < i ==> is_digit(#[trigger] s@.subrange(0, i as int)[j]));
            }
            let v = digits_value_capped(s, 0, i, cap);
            Some(v)
        },
        None => {
            proof {
                if two_dots(s@) {
                    let (p, q) = choose|p: int, q: int|
                        0 <= p < q < s@.len() && s@[p] == '.' && s@[q] == '.';
                }
                assert(forall|j: int|
                    0 <= j < n ==> is_digit(#[trigger] s@.subrange(0, n as int)[j]));
                assert(s@.subrange(0, n as int) =~= s@);
            }
            let v = digits_value_capped(s, 0, n, cap);
            Some(v)
        },
    }
}

/// Index of the first case-insensitive occurrence of the (already lowercase)
/// pattern, matching on the ASCII-lowercased text.
#[verifier::loop_isolation(false)]
pub fn find_sub_lower(s: &str, pat: &str) -> (r: Option<usize>)
    ensures
        match r {
            Some(i) => spec_find_sub(spec_ascii_lower(s@), pat@) == Some(i as int),
            None => !spec_contains(spec_ascii_lower(s@), pat@),
        },
{
    let n = s.unicode_len();
    let m = pat.unicode_len();
    let ghost low = spec_ascii_lower(s@);
    if m > n {
        proof {
            assert(forall|i: int| !match_at(low, pat@, i));
        }
        return None;
    }
    if m == 0 {
        proof {
            assert(low.subrange(0, 0) =~= pat@);
            lemma_find_sub_at(low, pat@, 0);
        }
        return Some(0);
    }
    let mut i: usize = 0;
    while i <= n - m
        invariant
            0 <= i <= n - m + 1,
            0 < m <= n,
            forall|k: int| 0 <= k < i ==> !match_at(low, pat@, k),
        decreases n - i,
    {
        let mut j: usize = 0;
        let mut ok = true;
        while j < m
            invariant
                0 <= j <= m,
                i + m <= n,
                ok ==> forall|k: int| 0 <= k < j ==> low[i + k] == pat@[k],
                !ok ==> exists|k: int| 0 <= k < j && low[i + k] != pat@[k],
            decreases m - j,
        {
            let a = lower_char_exec(s.get_char(i + j));
            let b = pat.get_char(j);
            proof {
                assert(low[i + j] == lower_char(s@[i + j]));
            }
            if a != b {
                ok = false;
                proof {
                    assert(low[i + j as int] != pat@[j as int]);
                }
                j = m;
            } else {
                j = j + 1;
            }
        }
        if ok {
            proof {
                assert(low.subrange(i as int, i + m) =~= pat@);
                lemma_find_sub_at(low, pat@, i as int);
            }
            return Some(i);
        }
        proof {
            if match_at(low, pat@, i as int) {
                let k = choose|k: int| 0 <= k < m && low[i + k] != pat@[k];
                assert(low.subrange(i as int, i + m)[k] == low[i + k]);
            }
        }
        i = i + 1;
    }
    proof {
        assert(forall|k: int| 0 <= k < low.len() && match_at(low, pat@, k) ==> k <= n - m);
    }
    None
}

} // verus!
