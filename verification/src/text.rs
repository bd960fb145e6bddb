//! Character-level helpers shared by the rest of the library: moving between
//! `&str`/`String` and `Vec<char>`, comparing and splitting text, and the
//! Unicode facts (case mapping, whitespace) that the naming rules rely on.
use vstd::prelude::*;

verus! {

/// `String::push` appends one character to the end of the string (std documents
/// exactly this); the contract says so over the string's character view.
pub assume_specification[ String::push ](string: &mut String, ch: char)
    ensures
        final(string)@ == old(string)@.push(ch),
;

/// The characters of `s`, in order.
pub fn chars_of(s: &str) -> (v: Vec<char>)
    ensures
        v@ == s@,
{
    let n = s.unicode_len();
    let mut v: Vec<char> = Vec::new();
    let mut i: usize = 0;
    while i < n
        invariant
            n == s@.len(),
            i <= n,
            v@ == s@.take(i as int),
        decreases n - i,
    {
        let c = s.get_char(i);
        v.push(c);
        i = i + 1;
        assert(v@ =~= s@.take(i as int));
    }
    assert(v@ =~= s@);
    v
}

/// A `String` holding exactly the characters of `v`.
pub fn string_of(v: &[char]) -> (s: String)
    ensures
        s@ == v@,
{
    let mut s = String::new();
    let mut i: usize = 0;
    while i < v.len()
        invariant
            i <= v@.len(),
            s@ == v@.take(i as int),
        decreases v@.len() - i,
    {
        s.push(v[i]);
        i = i + 1;
        assert(s@ =~= v@.take(i as int));
    }
    assert(s@ =~= v@);
    s
}

/// Appends the characters of `src` to `dst`.
pub fn extend_chars(dst: &mut Vec<char>, src: &[char])
    ensures
        final(dst)@ == old(dst)@ + src@,
{
    let mut i: usize = 0;
    while i < src.len()
        invariant
            i <= src@.len(),
            dst@ == old(dst)@ + src@.take(i as int),
        decreases src@.len() - i,
    {
        dst.push(src[i]);
        i = i + 1;
        assert(dst@ =~= old(dst)@ + src@.take(i as int));
    }
    assert(src@.take(src@.len() as int) =~= src@);
}

/// Appends the characters of `src` to `dst`.
pub fn extend_str(dst: &mut Vec<char>, src: &str)
    ensures
        final(dst)@ == old(dst)@ + src@,
{
    let v = chars_of(src);
    extend_chars(dst, v.as_slice());
}

/// Whether two strings hold the same characters.
pub fn str_eq(a: &str, b: &str) -> (r: bool)
    ensures
        r == (a@ == b@),
{
    let n = a.unicode_len();
    let m = b.unicode_len();
    if n != m {
        return false;
    }
    let mut i: usize = 0;
    while i < n
        invariant
            n == a@.len(),
            m == b@.len(),
            n == m,
            i <= n,
            forall|j: int| 0 <= j < i ==> a@[j] == b@[j],
        decreases n - i,
    {
        if a.get_char(i) != b.get_char(i) {
            return false;
        }
        i = i + 1;
    }
    assert(a@ =~= b@);
    true
}

/// Whether two character sequences are equal.
pub fn chars_eq(a: &[char], b: &[char]) -> (r: bool)
    ensures
        r == (a@ == b@),
{
    if a.len() != b.len() {
        return false;
    }
    let mut i: usize = 0;
    while i < a.len()
        invariant
            a@.len() == b@.len(),
            i <= a@.len(),
            forall|j: int| 0 <= j < i ==> a@[j] == b@[j],
        decreases a@.len() - i,
    {
        if a[i] != b[i] {
            return false;
        }
        i = i + 1;
    }
    assert(a@ =~= b@);
    true
}

/// `p` is a prefix of `s`.
pub open spec fn is_prefix(p: Seq<char>, s: Seq<char>) -> bool {
    p.len() <= s.len() && s.take(p.len() as int) == p
}

/// Whether `p` is a prefix of `s`.
pub fn chars_starts_with(s: &[char], p: &[char]) -> (r: bool)
    ensures
        r == is_prefix(p@, s@),
{
    if p.len() > s.len() {
        return false;
    }
    let mut i: usize = 0;
    while i < p.len()
        invariant
            p@.len() <= s@.len(),
            i <= p@.len(),
            forall|j: int| 0 <= j < i ==> s@[j] == p@[j],
        decreases p@.len() - i,
    {
        if s[i] != p[i] {
            assert(s@.take(p@.len() as int)[i as int] != p@[i as int]);
            return false;
        }
        i = i + 1;
    }
    assert(s@.take(p@.len() as int) =~= p@);
    true
}

/// The characters `s[from..]`.
pub fn chars_skip(s: &[char], from: usize) -> (r: Vec<char>)
    requires
        from <= s@.len(),
    ensures
        r@ == s@.skip(from as int),
{
    let mut r: Vec<char> = Vec::new();
    let mut i: usize = from;
    while i < s.len()
        invariant
            from <= i <= s@.len(),
            r@ == s@.subrange(from as int, i as int),
        decreases s@.len() - i,
    {
        r.push(s[i]);
        i = i + 1;
        assert(r@ =~= s@.subrange(from as int, i as int));
    }
    assert(r@ =~= s@.skip(from as int));
    r
}

/// The characters `s[from..to]`.
pub fn chars_slice(s: &[char], from: usize, to: usize) -> (r: Vec<char>)
    requires
        from <= to <= s@.len(),
    ensures
        r@ == s@.subrange(from as int, to as int),
{
    let mut r: Vec<char> = Vec::new();
    let mut i: usize = from;
    while i < to
        invariant
            from <= i <= to,
            to <= s@.len(),
            r@ == s@.subrange(from as int, i as int),
        decreases to - i,
    {
        r.push(s[i]);
        i = i + 1;
        assert(r@ =~= s@.subrange(from as int, i as int));
    }
    r
}

/// ASCII letters and digits.
pub open spec fn is_ascii_alphanumeric(c: char) -> bool {
    ('a' <= c && c <= 'z') || ('A' <= c && c <= 'Z') || ('0' <= c && c <= '9')
}

/// Characters with the Unicode `White_Space` property, which is what
/// `char::is_whitespace` tests and what `str::trim` strips.
pub open spec fn is_white_space(c: char) -> bool {
    let u = c as u32;
    (0x09 <= u && u <= 0x0D) || u == 0x20 || u == 0x85 || u == 0xA0 || u == 0x1680 || (0x2000 <= u
        && u <= 0x200A) || u == 0x2028 || u == 0x2029 || u == 0x202F || u == 0x205F || u == 0x3000
}

/// Whether `c` has the Unicode `White_Space` property.
pub fn char_is_white_space(c: char) -> (r: bool)
    ensures
        r == is_white_space(c),
{
    let u = c as u32;
    (0x09 <= u && u <= 0x0D) || u == 0x20 || u == 0x85 || u == 0xA0 || u == 0x1680 || (0x2000 <= u
        && u <= 0x200A) || u == 0x2028 || u == 0x2029 || u == 0x202F || u == 0x205F || u == 0x3000
}

/// Number of leading white-space characters of `s`.
pub open spec fn leading_ws(s: Seq<char>) -> nat
    decreases s.len(),
{
    if s.len() > 0 && is_white_space(s[0]) {
        1 + leading_ws(s.drop_first())
    } else {
        0
    }
}

/// Number of trailing white-space characters of `s`.
pub open spec fn trailing_ws(s: Seq<char>) -> nat
    decreases s.len(),
{
    if s.len() > 0 && is_white_space(s.last()) {
        1 + trailing_ws(s.drop_last())
    } else {
        0
    }
}

/// `s` with leading and trailing white space removed, as `str::trim` gives it.
pub open spec fn trim(s: Seq<char>) -> Seq<char> {
    let t = s.skip(leading_ws(s) as int);
    t.take(t.len() - trailing_ws(t))
}

proof fn lemma_trailing_ws_bound(s: Seq<char>)
    ensures
        trailing_ws(s) <= s.len(),
    decreases s.len(),
{
    if s.len() > 0 && is_white_space(s.last()) {
        lemma_trailing_ws_bound(s.drop_last());
    }
}

/// `s` trimmed of white space at both ends.
pub fn trim_chars(s: &[char]) -> (r: Vec<char>)
    ensures
        r@ == trim(s@),
{
    let n = s.len();
    let mut a: usize = 0;
    assert(s@.skip(0) =~= s@);
    while a < n && char_is_white_space(s[a])
        invariant
            n == s@.len(),
            a <= n,
            leading_ws(s@) == a + leading_ws(s@.skip(a as int)),
        decreases n - a,
    {
        assert(s@.skip(a as int).drop_first() =~= s@.skip(a + 1));
        a = a + 1;
    }
    assert(leading_ws(s@.skip(a as int)) == 0);
    let ghost t = s@.skip(a as int);
    let mut b: usize = n;
    assert(t.take(n - a) =~= t);
    while b > a && char_is_white_space(s[b - 1])
        invariant
            n == s@.len(),
            a <= b <= n,
            t == s@.skip(a as int),
            trailing_ws(t) == (n - b) + trailing_ws(t.take(b - a)),
        decreases b - a,
    {
        assert(t.take(b - a).drop_last() =~= t.take(b - 1 - a));
        assert(t.take(b - a).last() == s@[b - 1]);
        b = b - 1;
    }
    assert(trailing_ws(t.take(b - a)) == 0);
    proof {
        lemma_trailing_ws_bound(t);
    }
    let r = chars_slice(s, a, b);
    assert(r@ =~= t.take(t.len() - trailing_ws(t)));
    r
}

/// `s` cut at every occurrence of `d`, as `str::split` with a character gives it
/// (the empty string gives one empty piece).
pub open spec fn split_on(s: Seq<char>, d: char) -> Seq<Seq<char>>
    decreases s.len(),
{
    if s.len() == 0 {
        seq![seq![]]
    } else {
        let prev = split_on(s.drop_last(), d);
        if s.last() == d {
            prev.push(seq![])
        } else {
            prev.update(prev.len() - 1, prev.last().push(s.last()))
        }
    }
}

proof fn lemma_split_on_nonempty(s: Seq<char>, d: char)
    ensures
        split_on(s, d).len() >= 1,
    decreases s.len(),
{
    if s.len() > 0 {
        lemma_split_on_nonempty(s.drop_last(), d);
    }
}

/// The pieces of `s` between occurrences of `d`.
pub fn split_chars(s: &[char], d: char) -> (r: Vec<Vec<char>>)
    ensures
        r@.map_values(|x: Vec<char>| x@) == split_on(s@, d),
        r@.len() >= 1,
{
    let mut r: Vec<Vec<char>> = Vec::new();
    r.push(Vec::new());
    let mut i: usize = 0;
    assert(r@.map_values(|x: Vec<char>| x@) =~= split_on(s@.take(0), d));
    while i < s.len()
        invariant
            i <= s@.len(),
            r@.len() >= 1,
            r@.map_values(|x: Vec<char>| x@) == split_on(s@.take(i as int), d),
        decreases s@.len() - i,
    {
        assert(s@.take(i + 1).drop_last() =~= s@.take(i as int));
        assert(s@.take(i + 1).last() == s@[i as int]);
        let ghost before = r@;
        if s[i] == d {
            r.push(Vec::new());
            assert(r@.map_values(|x: Vec<char>| x@) =~= before.map_values(|x: Vec<char>| x@).push(
                seq![],
            ));
        } else {
            let last = r.len() - 1;
            let mut piece = r.pop().unwrap();
            piece.push(s[i]);
            r.push(piece);
            assert(r@.map_values(|x: Vec<char>| x@) =~= before.map_values(|x: Vec<char>| x@).update(
                last as int,
                before[last as int]@.push(s@[i as int]),
            ));
        }
        i = i + 1;
    }
    assert(s@.take(s@.len() as int) =~= s@);
    r
}

/// The comma-separated items of `s`, trimmed, without the empty ones.
pub open spec fn comma_items(s: Seq<char>) -> Seq<Seq<char>> {
    split_on(s, ',').map_values(|p: Seq<char>| trim(p)).filter(|p: Seq<char>| p.len() > 0)
}

/// Splits `s` at commas, trims each item and drops the empty ones.
pub fn parse_comma_list(s: &str) -> (r: Vec<String>)
    ensures
        r@.map_values(|x: String| x@) == comma_items(s@),
{
    let v = chars_of(s);
    let parts = split_chars(v.as_slice(), ',');
    let ghost trimmed = split_on(s@, ',').map_values(|p: Seq<char>| trim(p));
    let ghost keep = |p: Seq<char>| p.len() > 0;
    let mut r: Vec<String> = Vec::new();
    let mut i: usize = 0;
    while i < parts.len()
        invariant
            i <= parts@.len(),
            v@ == s@,
            parts@.map_values(|x: Vec<char>| x@) == split_on(s@, ','),
            trimmed == split_on(s@, ',').map_values(|p: Seq<char>| trim(p)),
            keep == (|p: Seq<char>| p.len() > 0),
            r@.map_values(|x: String| x@) == trimmed.take(i as int).filter(keep),
        decreases parts@.len() - i,
    {
        assert(trimmed.take(i + 1).drop_last() =~= trimmed.take(i as int));
        assert(trimmed[i as int] == trim(parts@[i as int]@));
        let t = trim_chars(parts[i].as_slice());
        let ghost before = r@;
        if t.len() > 0 {
            r.push(string_of(t.as_slice()));
            assert(r@.map_values(|x: String| x@) =~= before.map_values(|x: String| x@).push(t@));
        }
        assert(trimmed.take(i + 1).filter(keep) == trimmed.take(i as int).filter(keep) + (if keep(
            t@,
        ) {
            seq![t@]
        } else {
            seq![]
        })) by {
            reveal(Seq::filter);
            assert(trimmed.take(i + 1).last() == t@);
        }
        i = i + 1;
    }
    assert(trimmed.take(parts@.len() as int) =~= trimmed);
    r
}

proof fn lemma_leading_ws_stop(s: Seq<char>)
    ensures
        leading_ws(s) <= s.len(),
        leading_ws(s) < s.len() ==> !is_white_space(s[leading_ws(s) as int]),
    decreases s.len(),
{
    if s.len() > 0 && is_white_space(s[0]) {
        lemma_leading_ws_stop(s.drop_first());
        if leading_ws(s) < s.len() {
            assert(s[leading_ws(s) as int] == s.drop_first()[leading_ws(s.drop_first()) as int]);
        }
    }
}

proof fn lemma_trailing_ws_stop(s: Seq<char>)
    ensures
        trailing_ws(s) <= s.len(),
        trailing_ws(s) < s.len() ==> !is_white_space(s[s.len() - 1 - trailing_ws(s)]),
    decreases s.len(),
{
    if s.len() > 0 && is_white_space(s.last()) {
        lemma_trailing_ws_stop(s.drop_last());
        if trailing_ws(s) < s.len() {
            assert(s[s.len() - 1 - trailing_ws(s)] == s.drop_last()[s.drop_last().len() - 1
                - trailing_ws(s.drop_last())]);
        }
    }
}

/// A trimmed text is a piece of the text, and trimming it again changes nothing.
proof fn lemma_trim_piece(s: Seq<char>)
    ensures
        leading_ws(s) + trim(s).len() <= s.len(),
        forall|k: int| 0 <= k < trim(s).len() ==> #[trigger] trim(s)[k] == s[leading_ws(s) + k],
        trim(trim(s)) == trim(s),
{
    lemma_leading_ws_stop(s);
    let u = s.skip(leading_ws(s) as int);
    lemma_trailing_ws_stop(u);
    let t = trim(s);
    assert(t =~= u.take(u.len() - trailing_ws(u)));
    if t.len() > 0 {
        assert(!is_white_space(t[0]));
        assert(leading_ws(t) == 0);
        assert(t.last() == u[u.len() - 1 - trailing_ws(u)]);
        assert(trailing_ws(t) == 0);
        assert(trim(t) =~= t);
    } else {
        assert(trim(t) =~= t);
    }
}

proof fn lemma_split_pieces_lack_delimiter(s: Seq<char>, d: char)
    ensures
        forall|i: int, k: int|
            0 <= i < split_on(s, d).len() && 0 <= k < split_on(s, d)[i].len() ==> #[trigger] split_on(
                s,
                d,
            )[i][k] != d,
    decreases s.len(),
{
    if s.len() > 0 {
        let prev = split_on(s.drop_last(), d);
        lemma_split_pieces_lack_delimiter(s.drop_last(), d);
        lemma_split_on_nonempty(s.drop_last(), d);
        let cur = split_on(s, d);
        assert forall|i: int, k: int| 0 <= i < cur.len() && 0 <= k < cur[i].len() implies #[trigger] cur[i][k]
            != d by {
            if s.last() == d {
                if i < prev.len() {
                    assert(cur[i] == prev[i]);
                }
            } else {
                if i < prev.len() - 1 {
                    assert(cur[i] == prev[i]);
                } else {
                    assert(cur[i] == prev.last().push(s.last()));
                    if k < prev.last().len() {
                        assert(cur[i][k] == prev[prev.len() - 1][k]);
                    }
                }
            }
        }
    }
}

/// The kept elements satisfy the predicate and come from the sequence, and every
/// element that satisfies it is kept.
pub proof fn lemma_filter_members<A>(xs: Seq<A>, pred: spec_fn(A) -> bool)
    ensures
        forall|i: int|
            0 <= i < xs.filter(pred).len() ==> pred(#[trigger] xs.filter(pred)[i]) && xs.contains(
                xs.filter(pred)[i],
            ),
        forall|x: A| xs.contains(x) && pred(x) ==> #[trigger] xs.filter(pred).contains(x),
    decreases xs.len(),
{
    reveal(Seq::filter);
    if xs.len() > 0 {
        let prev = xs.drop_last();
        lemma_filter_members(prev, pred);
        let out = xs.filter(pred);
        let pout = prev.filter(pred);
        if pred(xs.last()) {
            assert(out =~= pout.push(xs.last()));
        } else {
            assert(out =~= pout);
        }
        assert forall|i: int| 0 <= i < out.len() implies pred(#[trigger] out[i]) && xs.contains(out[i]) by {
            if i < pout.len() {
                assert(out[i] == pout[i]);
                let j = choose|j: int| 0 <= j < prev.len() && prev[j] == out[i];
                assert(xs[j] == out[i]);
            } else {
                assert(out[i] == xs[xs.len() - 1]);
            }
        }
        assert forall|x: A| xs.contains(x) && pred(x) implies #[trigger] out.contains(x) by {
            let j = choose|j: int| 0 <= j < xs.len() && xs[j] == x;
            if j < xs.len() - 1 {
                assert(prev[j] == x);
                assert(prev.contains(x));
                assert(pout.contains(x));
                let k = choose|k: int| 0 <= k < pout.len() && pout[k] == x;
                assert(out[k] == x);
            } else {
                assert(out[out.len() - 1] == x);
            }
        }
    }
}

/// The items of a comma-separated list are never empty, hold no comma and carry
/// no white space at either end.
pub proof fn law_comma_items_are_clean(s: Seq<char>)
    ensures
        forall|i: int|
            0 <= i < comma_items(s).len() ==> (#[trigger] comma_items(s)[i]).len() > 0 && trim(
                comma_items(s)[i],
            ) == comma_items(s)[i] && !comma_items(s)[i].contains(','),
{
    let pieces = split_on(s, ',');
    let trimmed = pieces.map_values(|p: Seq<char>| trim(p));
    let keep = |p: Seq<char>| p.len() > 0;
    let items = comma_items(s);
    assert(items == trimmed.filter(keep));
    lemma_filter_members(trimmed, keep);
    lemma_split_pieces_lack_delimiter(s, ',');
    assert forall|i: int| 0 <= i < items.len() implies (#[trigger] items[i]).len() > 0 && trim(items[i])
        == items[i] && !items[i].contains(',') by {
        let j = choose|j: int| 0 <= j < trimmed.len() && trimmed[j] == items[i];
        assert(trimmed[j] == trim(pieces[j]));
        lemma_trim_piece(pieces[j]);
        lemma_leading_ws_stop(pieces[j]);
        assert forall|k: int| 0 <= k < items[i].len() implies items[i][k] != ',' by {
            assert(items[i][k] == pieces[j][leading_ws(pieces[j]) + k]);
            assert(pieces[j][leading_ws(pieces[j]) + k] != ',');
        }
    }
}

/// The decimal digit for `d` (for `d` below ten).
pub open spec fn digit_char(d: nat) -> char {
    if d == 0 {
        '0'
    } else if d == 1 {
        '1'
    } else if d == 2 {
        '2'
    } else if d == 3 {
        '3'
    } else if d == 4 {
        '4'
    } else if d == 5 {
        '5'
    } else if d == 6 {
        '6'
    } else if d == 7 {
        '7'
    } else if d == 8 {
        '8'
    } else {
        '9'
    }
}

/// The decimal numeral of `n`, without leading zeros.
pub open spec fn decimal(n: nat) -> Seq<char>
    decreases n,
{
    if n < 10 {
        seq![digit_char(n)]
    } else {
        decimal(n / 10).push(digit_char(n % 10))
    }
}

fn digit_of(d: u64) -> (c: char)
    requires
        d < 10,
    ensures
        c == digit_char(d as nat),
{
    if d == 0 {
        '0'
    } else if d == 1 {
        '1'
    } else if d == 2 {
        '2'
    } else if d == 3 {
        '3'
    } else if d == 4 {
        '4'
    } else if d == 5 {
        '5'
    } else if d == 6 {
        '6'
    } else if d == 7 {
        '7'
    } else if d == 8 {
        '8'
    } else {
        '9'
    }
}

/// The decimal numeral of `n`.
pub fn decimal_chars(n: u64) -> (r: Vec<char>)
    ensures
        r@ == decimal(n as nat),
    decreases n,
{
    if n < 10 {
        let mut v: Vec<char> = Vec::new();
        v.push(digit_of(n));
        assert(v@ =~= decimal(n as nat));
        v
    } else {
        let mut v = decimal_chars(n / 10);
        v.push(digit_of(n % 10));
        v
    }
}

} // verus!
