//! Naming rules for the generated TypeScript bridge client: turning provider and
//! function type ids into valid identifiers in PascalCase and camelCase.
use vstd::prelude::*;
use crate::text::{chars_eq, chars_of, chars_skip, chars_slice, chars_starts_with, extend_chars, is_ascii_alphanumeric, is_prefix, string_of};

verus! {

/// What `char::to_uppercase` yields for `c`: its full Unicode uppercase mapping.
pub uninterp spec fn char_uppercase(c: char) -> Seq<char>;

/// What `str::to_lowercase` yields for `s`: its full Unicode lowercase mapping
/// (which is not character by character: a final sigma depends on its context).
pub uninterp spec fn str_lowercase(s: Seq<char>) -> Seq<char>;

/// The ASCII uppercase of `c`: lowercase ASCII letters move up by 32, all other
/// characters stay.
pub open spec fn ascii_upper(c: char) -> char {
    if 'a' <= c && c <= 'z' {
        ((c as u32) - 32) as char
    } else {
        c
    }
}

/// The ASCII lowercase of `c`.
pub open spec fn ascii_lower(c: char) -> char {
    if 'A' <= c && c <= 'Z' {
        ((c as u32) + 32) as char
    } else {
        c
    }
}

pub open spec fn is_ascii_char(c: char) -> bool {
    (c as u32) < 0x80
}

pub open spec fn all_ascii(s: Seq<char>) -> bool {
    forall|i: int| 0 <= i < s.len() ==> is_ascii_char(#[trigger] s[i])
}

/// Calls `char::to_uppercase` and collects the characters it yields. The result is
/// named by `char_uppercase`; for an ASCII character std documents the plain ASCII
/// mapping, which the contract states. The mapping of other characters is left to
/// the name.
#[verifier::external_body]
fn uppercase_chars(c: char) -> (r: Vec<char>)
    ensures
        r@ == char_uppercase(c),
        is_ascii_char(c) ==> r@ == seq![ascii_upper(c)],
{
    c.to_uppercase().collect()
}

/// Calls `str::to_lowercase`. The result is named by `str_lowercase`; for ASCII
/// text std documents that each letter maps to its ASCII lowercase, which the
/// contract states. Other text is left to the name.
#[verifier::external_body]
fn lowercase_string(s: &str) -> (r: String)
    ensures
        r@ == str_lowercase(s@),
        all_ascii(s@) ==> r@ == s@.map_values(|c: char| ascii_lower(c)),
{
    s.to_lowercase()
}

/// The lowercase of a character sequence.
pub(crate) fn lowercase_chars(s: &[char]) -> (r: Vec<char>)
    ensures
        r@ == str_lowercase(s@),
        all_ascii(s@) ==> r@ == ascii_lowercase(s@),
{
    let st = string_of(s);
    let lower = lowercase_string(st.as_str());
    chars_of(lower.as_str())
}

/// Characters kept by the identifier sanitizer: ASCII letters, digits and `_`.
pub open spec fn is_ident_char(c: char) -> bool {
    is_ascii_alphanumeric(c) || c == '_'
}

/// Every character that is not an ASCII letter, digit or `_` becomes `_`.
pub open spec fn sanitized(s: Seq<char>) -> Seq<char> {
    s.map_values(|c: char| if is_ident_char(c) { c } else { '_' })
}

/// Sanitizing keeps the length, leaves only identifier characters, and changes
/// nothing the second time.
pub proof fn law_sanitize(s: Seq<char>)
    ensures
        sanitized(s).len() == s.len(),
        forall|i: int| 0 <= i < s.len() ==> is_ident_char(#[trigger] sanitized(s)[i]),
        sanitized(sanitized(s)) == sanitized(s),
        (forall|i: int| 0 <= i < s.len() ==> is_ident_char(#[trigger] s[i])) ==> sanitized(s) == s,
{
    assert(sanitized(sanitized(s)) =~= sanitized(s));
    if forall|i: int| 0 <= i < s.len() ==> is_ident_char(#[trigger] s[i]) {
        assert(sanitized(s) =~= s);
    }
}

/// The word separators of snake_case and kebab-case.
pub open spec fn is_separator(c: char) -> bool {
    c == '_' || c == '-'
}

/// PascalCase of `s`, reading it from the left: separators are dropped and the
/// first character of each maximal run of non-separators is uppercased;
/// `at_start` says whether the next character would begin a word.
pub open spec fn pascal_from(s: Seq<char>, at_start: bool) -> Seq<char>
    decreases s.len(),
{
    if s.len() == 0 {
        seq![]
    } else if is_separator(s[0]) {
        pascal_from(s.drop_first(), true)
    } else if at_start {
        char_uppercase(s[0]) + pascal_from(s.drop_first(), false)
    } else {
        seq![s[0]] + pascal_from(s.drop_first(), false)
    }
}

pub open spec fn pascal(s: Seq<char>) -> Seq<char> {
    pascal_from(s, true)
}

/// `pascal_from` where uppercasing is the ASCII mapping, as it is on ASCII text.
pub open spec fn ascii_pascal_from(s: Seq<char>, at_start: bool) -> Seq<char>
    decreases s.len(),
{
    if s.len() == 0 {
        seq![]
    } else if is_separator(s[0]) {
        ascii_pascal_from(s.drop_first(), true)
    } else if at_start {
        seq![ascii_upper(s[0])] + ascii_pascal_from(s.drop_first(), false)
    } else {
        seq![s[0]] + ascii_pascal_from(s.drop_first(), false)
    }
}

/// PascalCase of ASCII text.
pub open spec fn ascii_pascal(s: Seq<char>) -> Seq<char> {
    ascii_pascal_from(s, true)
}

/// The ASCII lowercase of every character of `s`.
pub open spec fn ascii_lowercase(s: Seq<char>) -> Seq<char> {
    s.map_values(|c: char| ascii_lower(c))
}

/// Number of leading separators of `s`.
pub open spec fn separator_run(s: Seq<char>) -> nat
    decreases s.len(),
{
    if s.len() > 0 && is_separator(s[0]) {
        1 + separator_run(s.drop_first())
    } else {
        0
    }
}

/// Length of the leading run of non-separators of `s` (its first word).
pub open spec fn word_run(s: Seq<char>) -> nat
    decreases s.len(),
{
    if s.len() > 0 && !is_separator(s[0]) {
        1 + word_run(s.drop_first())
    } else {
        0
    }
}

/// camelCase of `s`: the first word is lowercased as a whole, every later word
/// has its first character uppercased, separators are dropped; no words gives
/// the empty string.
pub open spec fn camel(s: Seq<char>) -> Seq<char> {
    let t = s.skip(separator_run(s) as int);
    if t.len() == 0 {
        seq![]
    } else {
        str_lowercase(t.take(word_run(t) as int)) + pascal_from(t.skip(word_run(t) as int), true)
    }
}

/// camelCase of ASCII text: `camel` with the ASCII case mappings.
pub open spec fn ascii_camel(s: Seq<char>) -> Seq<char> {
    let t = s.skip(separator_run(s) as int);
    if t.len() == 0 {
        seq![]
    } else {
        ascii_lowercase(t.take(word_run(t) as int)) + ascii_pascal_from(
            t.skip(word_run(t) as int),
            true,
        )
    }
}

/// Sanitize a name into a valid TypeScript identifier: every character other
/// than an ASCII letter, digit or `_` is replaced by `_`.
pub fn sanitize_identifier(name: &str) -> (r: String)
    ensures
        r@ == sanitized(name@),
{
    let v = chars_of(name);
    let mut out: Vec<char> = Vec::new();
    let mut i: usize = 0;
    while i < v.len()
        invariant
            v@ == name@,
            i <= v@.len(),
            out@ == sanitized(v@.take(i as int)),
        decreases v@.len() - i,
    {
        let c = v[i];
        let keep = ('a' <= c && c <= 'z') || ('A' <= c && c <= 'Z') || ('0' <= c && c <= '9') || c
            == '_';
        if keep {
            out.push(c);
        } else {
            out.push('_');
        }
        i = i + 1;
        assert(out@ =~= sanitized(v@.take(i as int)));
    }
    assert(v@.take(v@.len() as int) =~= v@);
    string_of(out.as_slice())
}

/// Appends `pascal_from(s[i..], at_start)` to `out`.
fn push_pascal(out: &mut Vec<char>, s: &[char], i: usize, at_start: bool)
    requires
        i <= s@.len(),
    ensures
        final(out)@ == old(out)@ + pascal_from(s@.skip(i as int), at_start),
        all_ascii(s@.skip(i as int)) ==> final(out)@ == old(out)@ + ascii_pascal_from(
            s@.skip(i as int),
            at_start,
        ),
{
    let mut k: usize = i;
    let mut start = at_start;
    while k < s.len()
        invariant
            i <= k <= s@.len(),
            old(out)@ + pascal_from(s@.skip(i as int), at_start) == out@ + pascal_from(
                s@.skip(k as int),
                start,
            ),
            all_ascii(s@.skip(i as int)) ==> old(out)@ + ascii_pascal_from(
                s@.skip(i as int),
                at_start,
            ) == out@ + ascii_pascal_from(s@.skip(k as int), start),
        decreases s@.len() - k,
    {
        let c = s[k];
        assert(s@.skip(k as int)[0] == c);
        assert(s@.skip(k as int).drop_first() =~= s@.skip(k + 1));
        proof {
            if all_ascii(s@.skip(i as int)) {
                assert(s@.skip(i as int)[k - i] == c);
            }
        }
        if c == '_' || c == '-' {
            start = true;
        } else if start {
            let up = uppercase_chars(c);
            let ghost before = out@;
            extend_chars(out, up.as_slice());
            assert(before + (char_uppercase(c) + pascal_from(s@.skip(k + 1), false)) =~= out@
                + pascal_from(s@.skip(k + 1), false));
            proof {
                if all_ascii(s@.skip(i as int)) {
                    assert(before + (seq![ascii_upper(c)] + ascii_pascal_from(
                        s@.skip(k + 1),
                        false,
                    )) =~= out@ + ascii_pascal_from(s@.skip(k + 1), false));
                }
            }
            start = false;
        } else {
            let ghost before = out@;
            out.push(c);
            assert(before + (seq![c] + pascal_from(s@.skip(k + 1), false)) =~= out@ + pascal_from(
                s@.skip(k + 1),
                false,
            ));
            assert(before + (seq![c] + ascii_pascal_from(s@.skip(k + 1), false)) =~= out@
                + ascii_pascal_from(s@.skip(k + 1), false));
        }
        k = k + 1;
    }
    assert(pascal_from(s@.skip(k as int), start) == Seq::<char>::empty());
    assert(ascii_pascal_from(s@.skip(k as int), start) == Seq::<char>::empty());
    assert(out@ + Seq::<char>::empty() =~= out@);
}

/// Convert snake_case or kebab-case to PascalCase.
pub fn to_pascal_case(s: &str) -> (r: String)
    ensures
        r@ == pascal(s@),
        all_ascii(s@) ==> r@ == ascii_pascal(s@),
{
    let v = chars_of(s);
    let mut out: Vec<char> = Vec::new();
    assert(v@.skip(0) =~= v@);
    push_pascal(&mut out, v.as_slice(), 0, true);
    assert(out@ =~= pascal(s@));
    assert(all_ascii(s@) ==> out@ =~= ascii_pascal(s@));
    string_of(out.as_slice())
}

/// camelCase of a character sequence.
fn camel_chars(v: &[char]) -> (r: Vec<char>)
    ensures
        r@ == camel(v@),
        all_ascii(v@) ==> r@ == ascii_camel(v@),
{
    let n = v.len();
    let mut a: usize = 0;
    assert(v@.skip(0) =~= v@);
    while a < n && (v[a] == '_' || v[a] == '-')
        invariant
            n == v@.len(),
            a <= n,
            separator_run(v@) == a + separator_run(v@.skip(a as int)),
        decreases n - a,
    {
        assert(v@.skip(a as int).drop_first() =~= v@.skip(a + 1));
        a = a + 1;
    }
    assert(separator_run(v@.skip(a as int)) == 0);
    let ghost t = v@.skip(a as int);
    if a == n {
        assert(t.len() == 0);
        return Vec::new();
    }
    let mut b: usize = a;
    assert(t.skip(0) =~= t);
    while b < n && !(v[b] == '_' || v[b] == '-')
        invariant
            n == v@.len(),
            a <= b <= n,
            t == v@.skip(a as int),
            word_run(t) == (b - a) + word_run(t.skip(b - a)),
        decreases n - b,
    {
        assert(t.skip(b - a).drop_first() =~= t.skip(b + 1 - a));
        assert(t.skip(b - a)[0] == v@[b as int]);
        b = b + 1;
    }
    assert(word_run(t.skip(b - a)) == 0) by {
        if b < n {
            assert(t.skip(b - a)[0] == v@[b as int]);
        }
    }
    let word = chars_slice(v, a, b);
    assert(word@ =~= t.take(word_run(t) as int));
    proof {
        if all_ascii(v@) {
            assert(all_ascii(word@)) by {
                assert forall|j: int| 0 <= j < word@.len() implies is_ascii_char(
                    #[trigger] word@[j],
                ) by {
                    assert(word@[j] == v@[a + j]);
                }
            }
            assert(all_ascii(v@.skip(b as int))) by {
                assert forall|j: int| 0 <= j < v@.skip(b as int).len() implies is_ascii_char(
                    #[trigger] v@.skip(b as int)[j],
                ) by {
                    assert(v@.skip(b as int)[j] == v@[b + j]);
                }
            }
        }
    }
    let mut out = lowercase_chars(word.as_slice());
    push_pascal(&mut out, v, b, true);
    assert(v@.skip(b as int) =~= t.skip(word_run(t) as int));
    out
}

/// Convert snake_case or kebab-case to camelCase.
pub fn to_camel_case(s: &str) -> (r: String)
    ensures
        r@ == camel(s@),
        all_ascii(s@) ==> r@ == ascii_camel(s@),
{
    let v = chars_of(s);
    let out = camel_chars(v.as_slice());
    string_of(out.as_slice())
}

/// Byte width of `c` in UTF-8.
pub open spec fn utf8_width(c: char) -> nat {
    let u = c as u32;
    if u < 0x80 {
        1
    } else if u < 0x800 {
        2
    } else if u < 0x10000 {
        3
    } else {
        4
    }
}

/// Byte length of `s` in UTF-8.
pub open spec fn utf8_len(s: Seq<char>) -> nat
    decreases s.len(),
{
    if s.len() == 0 {
        0
    } else {
        utf8_len(s.drop_last()) + utf8_width(s.last())
    }
}

/// Byte offset `b` falls on a character boundary of `s`.
pub open spec fn is_char_boundary(s: Seq<char>, b: nat) -> bool {
    exists|k: int| 0 <= k <= s.len() && utf8_len(s.take(k)) == b
}

/// The character index of byte offset `b` of `s`.
pub open spec fn char_index_of_byte(s: Seq<char>, b: nat) -> int {
    choose|k: int| 0 <= k <= s.len() && utf8_len(s.take(k)) == b
}

/// The byte offset of `function_name` after which the provider prefix ends, if
/// its lowercase starts with the lowercase provider name (followed by `_`, which
/// is then cut too); `None` when there is no such prefix.
pub open spec fn provider_prefix_cut(function_name: Seq<char>, provider_name: Seq<char>) -> Option<
    nat,
> {
    let fl = str_lowercase(function_name);
    let pl = str_lowercase(provider_name);
    if is_prefix(pl.push('_'), fl) {
        Some(utf8_len(pl) + 1)
    } else if is_prefix(pl, fl) {
        Some(utf8_len(pl))
    } else {
        None
    }
}

/// The function name as `strip_provider_prefix_and_camel_case` returns it.
pub open spec fn stripped_camel(function_name: Seq<char>, provider_name: Seq<char>) -> Seq<char> {
    if str_lowercase(function_name) == str_lowercase(provider_name) {
        camel(function_name)
    } else {
        match provider_prefix_cut(function_name, provider_name) {
            Some(b) => {
                let rest = function_name.skip(char_index_of_byte(function_name, b));
                if rest.len() == 0 {
                    camel(function_name)
                } else {
                    camel(rest)
                }
            },
            None => camel(function_name),
        }
    }
}

/// The inputs on which cutting the prefix stays on a character boundary, so that
/// the cut is a valid slice of the function name.
pub open spec fn strip_is_in_bounds(function_name: Seq<char>, provider_name: Seq<char>) -> bool {
    str_lowercase(function_name) != str_lowercase(provider_name) ==> match provider_prefix_cut(
        function_name,
        provider_name,
    ) {
        Some(b) => is_char_boundary(function_name, b),
        None => true,
    }
}

/// `stripped_camel` for an ASCII function name, given the lowercase `pl` of the
/// provider name: byte offsets are character indices there, and the case
/// mappings are the ASCII ones.
pub open spec fn ascii_stripped_camel(function_name: Seq<char>, pl: Seq<char>) -> Seq<char> {
    let fl = ascii_lowercase(function_name);
    let rest = if is_prefix(pl.push('_'), fl) {
        function_name.skip((pl.len() + 1) as int)
    } else if is_prefix(pl, fl) {
        function_name.skip(pl.len() as int)
    } else {
        function_name
    };
    if fl == pl || rest.len() == 0 {
        ascii_camel(function_name)
    } else {
        ascii_camel(rest)
    }
}

proof fn lemma_ascii_utf8_len_take(s: Seq<char>, k: int)
    requires
        all_ascii(s),
        0 <= k <= s.len(),
    ensures
        utf8_len(s.take(k)) == k,
    decreases k,
{
    if k > 0 {
        lemma_ascii_utf8_len_take(s, k - 1);
        lemma_utf8_len_take_step(s, k - 1);
        assert(is_ascii_char(s[k - 1]));
    }
}

/// On ASCII text every byte offset up to its length is a character boundary, at
/// that same character index.
proof fn lemma_ascii_boundary(s: Seq<char>, b: nat)
    requires
        all_ascii(s),
        b <= s.len(),
    ensures
        is_char_boundary(s, b),
        char_index_of_byte(s, b) == b,
{
    lemma_ascii_utf8_len_take(s, b as int);
    assert(0 <= b <= s.len() && utf8_len(s.take(b as int)) == b);
    let k = char_index_of_byte(s, b);
    lemma_ascii_utf8_len_take(s, k);
}

/// A prefix of ASCII text is ASCII.
proof fn lemma_ascii_prefix(p: Seq<char>, s: Seq<char>)
    requires
        all_ascii(s),
        is_prefix(p, s),
    ensures
        all_ascii(p),
        utf8_len(p) == p.len(),
{
    assert forall|j: int| 0 <= j < p.len() implies is_ascii_char(#[trigger] p[j]) by {
        assert(s.take(p.len() as int)[j] == s[j]);
    }
    lemma_ascii_utf8_len_take(p, p.len() as int);
    assert(p.take(p.len() as int) =~= p);
}

/// A suffix of ASCII text is ASCII.
proof fn lemma_ascii_skip(s: Seq<char>, k: int)
    requires
        all_ascii(s),
        0 <= k <= s.len(),
    ensures
        all_ascii(s.skip(k)),
{
    assert forall|j: int| 0 <= j < s.skip(k).len() implies is_ascii_char(#[trigger] s.skip(k)[j]) by {
        assert(s.skip(k)[j] == s[k + j]);
    }
}

/// Cutting the provider prefix off an ASCII function name stays in bounds.
proof fn lemma_ascii_strip_in_bounds(f: Seq<char>, p: Seq<char>)
    requires
        all_ascii(f),
        str_lowercase(f) == ascii_lowercase(f),
    ensures
        strip_is_in_bounds(f, p),
{
    let fl = str_lowercase(f);
    let pl = str_lowercase(p);
    assert(all_ascii(fl)) by {
        assert forall|j: int| 0 <= j < fl.len() implies is_ascii_char(#[trigger] fl[j]) by {
            assert(is_ascii_char(f[j]));
        }
    }
    if is_prefix(pl.push('_'), fl) {
        lemma_ascii_prefix(pl.push('_'), fl);
        assert(is_prefix(pl, pl.push('_'))) by {
            assert(pl.push('_').take(pl.len() as int) =~= pl);
        }
        lemma_ascii_prefix(pl, pl.push('_'));
        lemma_ascii_boundary(f, (pl.len() + 1) as nat);
    } else if is_prefix(pl, fl) {
        lemma_ascii_prefix(pl, fl);
        lemma_ascii_boundary(f, pl.len());
    }
}

proof fn lemma_utf8_len_take_step(s: Seq<char>, k: int)
    requires
        0 <= k < s.len(),
    ensures
        utf8_len(s.take(k + 1)) == utf8_len(s.take(k)) + utf8_width(s[k]),
{
    assert(s.take(k + 1).drop_last() =~= s.take(k));
}

proof fn lemma_utf8_len_take_strict(s: Seq<char>, k1: int, k2: int)
    requires
        0 <= k1 < k2 <= s.len(),
    ensures
        utf8_len(s.take(k1)) < utf8_len(s.take(k2)),
    decreases k2 - k1,
{
    lemma_utf8_len_take_step(s, k2 - 1);
    if k1 < k2 - 1 {
        lemma_utf8_len_take_strict(s, k1, k2 - 1);
    }
}

fn utf8_width_of(c: char) -> (w: usize)
    ensures
        w == utf8_width(c),
{
    let u = c as u32;
    if u < 0x80 {
        1
    } else if u < 0x800 {
        2
    } else if u < 0x10000 {
        3
    } else {
        4
    }
}

/// The character index at which byte offset `b` of `s` falls, if it is a boundary.
fn char_index_at_byte(s: &[char], b: u128) -> (r: Option<usize>)
    ensures
        r is Some <==> is_char_boundary(s@, b as nat),
        r matches Some(k) ==> k == char_index_of_byte(s@, b as nat) && k <= s@.len(),
{
    let mut k: usize = 0;
    let mut acc: u128 = 0;
    while k < s.len() && acc < b
        invariant
            k <= s@.len(),
            acc == utf8_len(s@.take(k as int)),
            acc <= 4 * k,
            k > 0 ==> utf8_len(s@.take(k - 1)) < b,
        decreases s@.len() - k,
    {
        proof {
            lemma_utf8_len_take_step(s@, k as int);
        }
        acc = acc + utf8_width_of(s[k]) as u128;
        k = k + 1;
    }
    if acc == b {
        assert(0 <= k <= s@.len() && utf8_len(s@.take(k as int)) == b);
        assert(is_char_boundary(s@, b as nat));
        proof {
            let j = char_index_of_byte(s@, b as nat);
            if j < k {
                lemma_utf8_len_take_strict(s@, j, k as int);
            } else if j > k {
                lemma_utf8_len_take_strict(s@, k as int, j);
            }
        }
        Some(k)
    } else {
        assert(!is_char_boundary(s@, b as nat)) by {
            if is_char_boundary(s@, b as nat) {
                let j = choose|j: int| 0 <= j <= s@.len() && utf8_len(s@.take(j)) == b;
                if acc < b {
                    assert(k == s@.len());
                    if j < k {
                        lemma_utf8_len_take_strict(s@, j, k as int);
                    }
                } else {
                    if j < k - 1 {
                        lemma_utf8_len_take_strict(s@, j, k - 1);
                    } else if j > k {
                        lemma_utf8_len_take_strict(s@, k as int, j);
                    }
                }
            }
        }
        None
    }
}

/// Strip the provider prefix from a function name and convert it to camelCase:
/// `"google_mail_send_email"` with provider `"google_mail"` gives `"sendEmail"`.
/// When the (lowercased) names are equal, or stripping leaves nothing, the whole
/// function name is converted instead.
pub fn strip_provider_prefix_and_camel_case(function_name: &str, provider_name: &str) -> (r: String)
    requires
        all_ascii(function_name@) || strip_is_in_bounds(function_name@, provider_name@),
    ensures
        r@ == stripped_camel(function_name@, provider_name@),
        all_ascii(function_name@) ==> r@ == ascii_stripped_camel(
            function_name@,
            str_lowercase(provider_name@),
        ),
        all_ascii(function_name@) && all_ascii(provider_name@) ==> r@ == ascii_stripped_camel(
            function_name@,
            ascii_lowercase(provider_name@),
        ),
{
    let fv = chars_of(function_name);
    let pv = chars_of(provider_name);
    let fl = lowercase_chars(fv.as_slice());
    let pl = lowercase_chars(pv.as_slice());
    let ghost ascii = all_ascii(function_name@);
    proof {
        if ascii {
            assert(fl@.len() == fv@.len());
            assert forall|j: int| 0 <= j < fl@.len() implies is_ascii_char(#[trigger] fl@[j]) by {
                assert(is_ascii_char(fv@[j]));
            }
        }
    }
    if chars_eq(fl.as_slice(), pl.as_slice()) {
        let out = camel_chars(fv.as_slice());
        return string_of(out.as_slice());
    }
    let mut pl_sep = pl.clone();
    pl_sep.push('_');
    assert(pl_sep@ == pl@.push('_'));
    let cut: Option<u128> = if chars_starts_with(fl.as_slice(), pl_sep.as_slice()) {
        proof {
            if ascii {
                lemma_ascii_prefix(pl_sep@, fl@);
                assert(is_prefix(pl@, pl_sep@)) by {
                    assert(pl_sep@.take(pl@.len() as int) =~= pl@);
                }
                lemma_ascii_prefix(pl@, pl_sep@);
                lemma_ascii_boundary(fv@, (pl@.len() + 1) as nat);
            }
        }
        Some(utf8_byte_len(pl.as_slice()) + 1)
    } else if chars_starts_with(fl.as_slice(), pl.as_slice()) {
        proof {
            if ascii {
                lemma_ascii_prefix(pl@, fl@);
                lemma_ascii_boundary(fv@, pl@.len());
            }
        }
        Some(utf8_byte_len(pl.as_slice()))
    } else {
        None
    };
    let rest = match cut {
        Some(b) => {
            let k = char_index_at_byte(fv.as_slice(), b).unwrap();
            proof {
                if ascii {
                    lemma_ascii_skip(fv@, k as int);
                }
            }
            chars_skip(fv.as_slice(), k)
        },
        None => fv.clone(),
    };
    let out = if rest.len() == 0 {
        camel_chars(fv.as_slice())
    } else {
        camel_chars(rest.as_slice())
    };
    string_of(out.as_slice())
}

/// Like `strip_provider_prefix_and_camel_case`, for any input: `None` exactly where
/// the cut would not fall on a character boundary.
pub fn try_strip_provider_prefix_and_camel_case(function_name: &str, provider_name: &str) -> (r:
    Option<String>)
    ensures
        r is Some <==> strip_is_in_bounds(function_name@, provider_name@),
        r matches Some(s) ==> s@ == stripped_camel(function_name@, provider_name@),
        all_ascii(function_name@) ==> r is Some,
{
    let fv = chars_of(function_name);
    let pv = chars_of(provider_name);
    let fl = lowercase_chars(fv.as_slice());
    let pl = lowercase_chars(pv.as_slice());
    proof {
        if all_ascii(function_name@) {
            lemma_ascii_strip_in_bounds(function_name@, provider_name@);
        }
    }
    if !chars_eq(fl.as_slice(), pl.as_slice()) {
        let mut pl_sep = pl.clone();
        pl_sep.push('_');
        let cut: Option<u128> = if chars_starts_with(fl.as_slice(), pl_sep.as_slice()) {
            Some(utf8_byte_len(pl.as_slice()) + 1)
        } else if chars_starts_with(fl.as_slice(), pl.as_slice()) {
            Some(utf8_byte_len(pl.as_slice()))
        } else {
            None
        };
        if let Some(b) = cut {
            if char_index_at_byte(fv.as_slice(), b).is_none() {
                return None;
            }
        }
    }
    Some(strip_provider_prefix_and_camel_case(function_name, provider_name))
}

/// UTF-8 byte length of `s`.
fn utf8_byte_len(s: &[char]) -> (r: u128)
    ensures
        r == utf8_len(s@),
        r <= 4 * s@.len(),
{
    let mut k: usize = 0;
    let mut acc: u128 = 0;
    while k < s.len()
        invariant
            k <= s@.len(),
            acc == utf8_len(s@.take(k as int)),
            acc <= 4 * k,
        decreases s@.len() - k,
    {
        proof {
            lemma_utf8_len_take_step(s@, k as int);
        }
        acc = acc + utf8_width_of(s[k]) as u128;
        k = k + 1;
    }
    assert(s@.take(k as int) =~= s@);
    acc
}

} // verus!
