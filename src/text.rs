//! The small grammar of resource-tag arguments and other text helpers.
//!
//! A tag's argument text looks like `(width = 1920, height = 1200)`: a
//! parenthesised, `", "`-separated list of `key = value` pairs whose values are
//! ASCII alphanumeric words.
use vstd::prelude::*;
use vstd::string::*;

verus! {

/// A character that ends one item of a comma-separated tuple.
pub open spec fn is_item_end(c: char) -> bool {
    c == ',' || c == ')'
}

/// The index at which the item starting at `i` ends: the first `,` or `)` at
/// or after `i`, or the end of the text.
pub open spec fn item_end(s: Seq<char>, i: int) -> int
    decreases s.len() - i,
{
    if i < 0 || i >= s.len() {
        s.len() as int
    } else if is_item_end(s[i]) {
        i
    } else {
        item_end(s, i + 1)
    }
}

/// Whether `s` holds the separator `", "` at position `j`.
pub open spec fn separator_at(s: Seq<char>, j: int) -> bool {
    0 <= j && j + 2 <= s.len() && s[j] == ',' && s[j + 1] == ' '
}

/// The items of the tuple text `s` from position `i` on: maximal runs without
/// `,` or `)`, separated by `", "`; the list stops at the first item that is
/// not followed by a separator.
pub open spec fn comma_items_from(s: Seq<char>, i: int) -> Seq<Seq<char>>
    decreases s.len() - i,
{
    let j = item_end(s, i);
    if 0 <= i <= j && separator_at(s, j) {
        seq![s.subrange(i, j)].add(comma_items_from(s, j + 2))
    } else {
        seq![s.subrange(i, j)]
    }
}

/// The items of a comma-separated tuple text.
pub open spec fn comma_items(s: Seq<char>) -> Seq<Seq<char>> {
    comma_items_from(s, 0)
}

/// Whether `c` is an ASCII letter or digit.
pub open spec fn is_alnum(c: char) -> bool {
    ('a' <= c && c <= 'z') || ('A' <= c && c <= 'Z') || ('0' <= c && c <= '9')
}

/// The end of the run of ASCII letters and digits that starts at `i`.
pub open spec fn alnum_end(s: Seq<char>, i: int) -> int
    decreases s.len() - i,
{
    if i < 0 || i >= s.len() {
        s.len() as int
    } else if is_alnum(s[i]) {
        alnum_end(s, i + 1)
    } else {
        i
    }
}

/// The first index at or after `i` that holds a space, if any.
pub open spec fn space_from(s: Seq<char>, i: int) -> Option<int>
    decreases s.len() - i,
{
    if i < 0 || i >= s.len() {
        None
    } else if s[i] == ' ' {
        Some(i)
    } else {
        space_from(s, i + 1)
    }
}

/// A `key = value` pair: the key is everything before the first space, which
/// must start `" = "`; the value is the alphanumeric run that follows.
pub open spec fn key_value(s: Seq<char>) -> Option<(Seq<char>, Seq<char>)> {
    match space_from(s, 0) {
        None => None,
        Some(k) => {
            if k + 3 <= s.len() && s[k + 1] == '=' && s[k + 2] == ' ' {
                Some((s.subrange(0, k), s.subrange(k + 3, alnum_end(s, k + 3))))
            } else {
                None
            }
        },
    }
}

/// Whether every item of `items` is a `key = value` pair.
pub open spec fn all_pairs(items: Seq<Seq<char>>) -> bool {
    forall|i: int| 0 <= i < items.len() ==> (#[trigger] key_value(items[i])) is Some
}

/// The arguments of a tag: the text inside the surrounding parentheses (its
/// first and last characters dropped), split into `key = value` pairs.
pub open spec fn tag_args(s: Seq<char>) -> Option<Seq<(Seq<char>, Seq<char>)>> {
    if s.len() < 2 {
        None
    } else {
        let items = comma_items(s.subrange(1, s.len() - 1));
        if all_pairs(items) {
            Some(items.map_values(|t: Seq<char>| key_value(t)->0))
        } else {
            None
        }
    }
}

/// The value given last for `key` among the first `n` pairs.
pub open spec fn lookup_upto(args: Seq<(Seq<char>, Seq<char>)>, key: Seq<char>, n: int) -> Option<
    Seq<char>,
>
    decreases n,
{
    if n <= 0 {
        None
    } else if args[n - 1].0 == key {
        Some(args[n - 1].1)
    } else {
        lookup_upto(args, key, n - 1)
    }
}

/// The value given for `key`; where a key is repeated, the last one counts.
pub open spec fn lookup(args: Seq<(Seq<char>, Seq<char>)>, key: Seq<char>) -> Option<Seq<char>> {
    lookup_upto(args, key, args.len() as int)
}

/// Whether `pat` occurs in `s` as a contiguous run.
pub open spec fn contains_text(s: Seq<char>, pat: Seq<char>) -> bool {
    exists|i: int| 0 <= i && i + pat.len() <= s.len() && #[trigger] s.subrange(i, i + pat.len()) == pat
}

/// Whether `c` is an ASCII decimal digit.
pub open spec fn is_digit(c: char) -> bool {
    '0' <= c && c <= '9'
}

/// The numeric value of a decimal digit.
pub open spec fn digit_value(c: char) -> nat {
    (c as u32 - '0' as u32) as nat
}

/// The value of a run of decimal digits, most significant first.
pub open spec fn decimal_value(s: Seq<char>) -> nat
    decreases s.len(),
{
    if s.len() == 0 {
        0
    } else {
        decimal_value(s.drop_last()) * 10 + digit_value(s.last())
    }
}

/// Whether `s` is a non-empty run of decimal digits.
pub open spec fn is_decimal(s: Seq<char>) -> bool {
    s.len() > 0 && forall|i: int| 0 <= i < s.len() ==> is_digit(#[trigger] s[i])
}

/// The digit character for a value below ten.
pub open spec fn digit_char(d: nat) -> char {
    ((48 + d) as u8) as char
}

/// The decimal text of `n`, without leading zeros.
pub open spec fn decimal_text(n: nat) -> Seq<char>
    decreases n,
{
    if n < 10 {
        seq![digit_char(n)]
    } else {
        decimal_text(n / 10).push(digit_char(n % 10))
    }
}

proof fn lemma_item_end(s: Seq<char>, i: int)
    requires
        0 <= i <= s.len(),
    ensures
        i <= item_end(s, i) <= s.len(),
        forall|k: int| i <= k < item_end(s, i) ==> !is_item_end(#[trigger] s[k]),
        item_end(s, i) < s.len() ==> is_item_end(s[item_end(s, i)]),
    decreases s.len() - i,
{
    if i < s.len() && !is_item_end(s[i]) {
        lemma_item_end(s, i + 1);
    }
}

proof fn lemma_alnum_end(s: Seq<char>, i: int)
    requires
        0 <= i <= s.len(),
    ensures
        i <= alnum_end(s, i) <= s.len(),
        forall|k: int| i <= k < alnum_end(s, i) ==> is_alnum(#[trigger] s[k]),
        alnum_end(s, i) < s.len() ==> !is_alnum(s[alnum_end(s, i)]),
    decreases s.len() - i,
{
    if i < s.len() && is_alnum(s[i]) {
        lemma_alnum_end(s, i + 1);
    }
}

proof fn lemma_space_from(s: Seq<char>, i: int)
    requires
        0 <= i <= s.len(),
    ensures
        forall|k: int| i <= k < s.len() && space_from(s, i) is None ==> s[k] != ' ',
        space_from(s, i) is Some ==> {
            let k = space_from(s, i)->0;
            &&& i <= k < s.len()
            &&& s[k] == ' '
            &&& forall|m: int| i <= m < k ==> s[m] != ' '
        },
    decreases s.len() - i,
{
    if i < s.len() && s[i] != ' ' {
        lemma_space_from(s, i + 1);
    }
}

/// The characters of `s`, as a vector.
fn chars_of(s: &str) -> (r: Vec<char>)
    ensures
        r@ == s@,
{
    let n = s.unicode_len();
    let mut r: Vec<char> = Vec::new();
    let mut i: usize = 0;
    while i < n
        invariant
            n == s@.len(),
            i <= n,
            r@ == s@.subrange(0, i as int),
        decreases n - i,
    {
        r.push(s.get_char(i));
        i = i + 1;
        assert(r@ =~= s@.subrange(0, i as int));
    }
    assert(r@ =~= s@);
    r
}

/// The text between positions `from` and `to` of `s`.
fn slice_text(s: &str, from: usize, to: usize) -> (r: String)
    requires
        from <= to <= s@.len(),
    ensures
        r@ == s@.subrange(from as int, to as int),
{
    s.substring_char(from, to).to_owned()
}

/// Relies on `String::push`, which appends one character.
#[verifier::external_body]
pub(crate) fn push_char(s: &mut String, c: char)
    ensures
        final(s)@ == old(s)@.push(c),
{
    s.push(c)
}

/// Appends the decimal text of `n` to `s`.
pub fn push_decimal(s: &mut String, n: usize)
    ensures
        final(s)@ == old(s)@ + decimal_text(n as nat),
    decreases n,
{
    if n >= 10 {
        push_decimal(s, n / 10);
    }
    let d: u8 = (n % 10) as u8;
    push_char(s, (48u8 + d) as char);
    assert(final(s)@ =~= old(s)@ + decimal_text(n as nat));
}

/// Whether two texts are equal, character by character.
pub fn same_text(a: &str, b: &str) -> (r: bool)
    ensures
        r == (a@ == b@),
{
    let n = a.unicode_len();
    let m = b.unicode_len();
    if n != m {
        return false;
    }
    let mut i: usize = 0;
    while i < n
        invariant
            n == a@.len(),
            m == b@.len(),
            n == m,
            i <= n,
            a@.subrange(0, i as int) == b@.subrange(0, i as int),
        decreases n - i,
    {
        if a.get_char(i) != b.get_char(i) {
            return false;
        }
        i = i + 1;
        assert(a@.subrange(0, i as int) =~= a@.subrange(0, i as int - 1).push(a@[i - 1]));
        assert(b@.subrange(0, i as int) =~= b@.subrange(0, i as int - 1).push(b@[i - 1]));
    }
    assert(a@ =~= a@.subrange(0, n as int));
    assert(b@ =~= b@.subrange(0, n as int));
    true
}

/// Whether `pat` occurs in `s`.
pub fn contains(s: &str, pat: &str) -> (r: bool)
    ensures
        r == contains_text(s@, pat@),
{
    let sc = chars_of(s);
    let pc = chars_of(pat);
    let n = sc.len();
    let m = pc.len();
    if m > n {
        return false;
    }
    let mut i: usize = 0;
    while i <= n - m
        invariant
            sc@ == s@,
            pc@ == pat@,
            n == s@.len(),
            m == pat@.len(),
            m <= n,
            i <= n - m + 1,
            forall|k: int| 0 <= k < i ==> #[trigger] s@.subrange(k, k + m) != pat@,
        decreases n - m + 1 - i,
    {
        let mut j: usize = 0;
        let mut matched = true;
        while j < m
            invariant
                sc@ == s@,
                pc@ == pat@,
                n == s@.len(),
                m == pat@.len(),
                i + m <= n,
                j <= m,
                matched == (forall|k: int| 0 <= k < j ==> s@[i + k] == pat@[k]),
            decreases m - j,
        {
            if sc[i + j] != pc[j] {
                matched = false;
            }
            j = j + 1;
        }
        if matched {
            assert(s@.subrange(i as int, i + m) =~= pat@);
            return true;
        }
        assert(s@.subrange(i as int, i + m) != pat@) by {
            let k = choose|k: int| 0 <= k < m && s@[i + k] != pat@[k];
            assert(s@.subrange(i as int, i + m)[k] != pat@[k]);
        }
        i = i + 1;
    }
    assert forall|k: int| 0 <= k && k + pat@.len() <= s@.len() implies #[trigger] s@.subrange(
        k,
        k + pat@.len(),
    ) != pat@ by {
        assert(k < i);
    }
    false
}

/// Splits a tuple text into its items (the `", "`-separated runs without
/// `,` or `)`); what follows the last item is ignored.
pub fn comma_tuple(input: &str) -> (r: Vec<String>)
    ensures
        r@.map_values(|t: String| t@) == comma_items(input@),
{
    let s = chars_of(input);
    let n = s.len();
    let mut items: Vec<String> = Vec::new();
    let mut i: usize = 0;
    loop
        invariant
            s@ == input@,
            n == s@.len(),
            i <= n,
            items@.map_values(|t: String| t@).add(comma_items_from(input@, i as int)) == comma_items(
                input@,
            ),
        decreases n - i,
    {
        proof {
            lemma_item_end(input@, i as int);
        }
        let mut j: usize = i;
        while j < n && s[j] != ',' && s[j] != ')'
            invariant
                s@ == input@,
                n == s@.len(),
                i <= j <= n,
                forall|k: int| i <= k < j ==> !is_item_end(#[trigger] input@[k]),
                i <= item_end(input@, i as int) <= n,
                forall|k: int| i <= k < item_end(input@, i as int) ==> !is_item_end(#[trigger] input@[k]),
                item_end(input@, i as int) < n ==> is_item_end(input@[item_end(input@, i as int)]),
            decreases n - j,
        {
            j = j + 1;
        }
        assert(j == item_end(input@, i as int)) by {
            if j < item_end(input@, i as int) {
                assert(!is_item_end(input@[j as int]));
            } else if j > item_end(input@, i as int) {
                assert(!is_item_end(input@[item_end(input@, i as int)]));
            }
        }
        let item = slice_text(input, i, j);
        let ghost old_items = items@;
        items.push(item);
        assert(items@.map_values(|t: String| t@) =~= old_items.map_values(|t: String| t@).push(
            input@.subrange(i as int, j as int),
        ));
        if n - j >= 2 && s[j] == ',' && s[j + 1] == ' ' {
            assert(comma_items_from(input@, i as int) == seq![input@.subrange(i as int, j as int)].add(
                comma_items_from(input@, j + 2),
            ));
            assert(items@.map_values(|t: String| t@).add(comma_items_from(input@, j + 2)) =~= old_items.map_values(
                |t: String| t@,
            ).add(comma_items_from(input@, i as int)));
            i = j + 2;
        } else {
            assert(comma_items_from(input@, i as int) == seq![input@.subrange(i as int, j as int)]);
            assert(items@.map_values(|t: String| t@) =~= old_items.map_values(|t: String| t@).add(
                comma_items_from(input@, i as int),
            ));
            return items;
        }
    }
}

/// Splits `key = value` into its key and value; `None` where the text has no
/// space or the first space does not start `" = "`.
pub fn key_val(input: &str) -> (r: Option<(String, String)>)
    ensures
        r matches Some(p) ==> key_value(input@) == Some((p.0@, p.1@)),
        r is None <==> key_value(input@) is None,
{
    let s = chars_of(input);
    let n = s.len();
    proof {
        lemma_space_from(input@, 0);
    }
    let mut k: usize = 0;
    while k < n && s[k] != ' '
        invariant
            s@ == input@,
            n == s@.len(),
            k <= n,
            forall|m: int| 0 <= m < k ==> input@[m] != ' ',
        decreases n - k,
    {
        k = k + 1;
    }
    if k == n {
        assert(space_from(input@, 0) is None) by {
            if space_from(input@, 0) is Some {
                let q = space_from(input@, 0)->0;
                assert(input@[q] == ' ');
            }
        }
        return None;
    }
    assert(space_from(input@, 0) == Some(k as int)) by {
        if space_from(input@, 0) is None {
            assert(input@[k as int] == ' ');
        } else {
            let q = space_from(input@, 0)->0;
            if q < k {
                assert(input@[q] == ' ');
            } else if q > k {
                assert(input@[k as int] == ' ');
            }
        }
    }
    if n - k < 3 || s[k + 1] != '=' || s[k + 2] != ' ' {
        return None;
    }
    let start = k + 3;
    proof {
        lemma_alnum_end(input@, start as int);
    }
    let mut e: usize = start;
    while e < n && ((s[e] >= 'a' && s[e] <= 'z') || (s[e] >= 'A' && s[e] <= 'Z') || (s[e] >= '0'
        && s[e] <= '9'))
        invariant
            s@ == input@,
            n == s@.len(),
            start <= e <= n,
            forall|m: int| start <= m < e ==> is_alnum(#[trigger] input@[m]),
            start <= alnum_end(input@, start as int) <= n,
            forall|m: int| start <= m < alnum_end(input@, start as int) ==> is_alnum(#[trigger] input@[m]),
            alnum_end(input@, start as int) < n ==> !is_alnum(input@[alnum_end(input@, start as int)]),
        decreases n - e,
    {
        e = e + 1;
    }
    assert(e == alnum_end(input@, start as int)) by {
        if e < alnum_end(input@, start as int) {
            assert(is_alnum(input@[e as int]));
        } else if e > alnum_end(input@, start as int) {
            assert(is_alnum(input@[alnum_end(input@, start as int)]));
        }
    }
    Some((slice_text(input, 0, k), slice_text(input, start, e)))
}

/// The view of a list of argument pairs.
pub open spec fn pairs_view(v: Seq<(String, String)>) -> Seq<(Seq<char>, Seq<char>)> {
    v.map_values(|p: (String, String)| (p.0@, p.1@))
}

/// The `key = value` arguments of a tag's argument text `(k = v, ...)`;
/// `None` where the text is shorter than a pair of parentheses or an item is
/// not a pair.
pub fn inner_args(inner: &str) -> (r: Option<Vec<(String, String)>>)
    ensures
        r matches Some(v) ==> tag_args(inner@) == Some(pairs_view(v@)),
        r is None <==> tag_args(inner@) is None,
{
    let n = inner.unicode_len();
    if n < 2 {
        return None;
    }
    let body = inner.substring_char(1, n - 1);
    let items = comma_tuple(body);
    let ghost iv = items@.map_values(|t: String| t@);
    assert(iv == comma_items(inner@.subrange(1, n - 1)));
    let mut args: Vec<(String, String)> = Vec::new();
    let mut i: usize = 0;
    while i < items.len()
        invariant
            iv == items@.map_values(|t: String| t@),
            iv == comma_items(inner@.subrange(1, inner@.len() - 1)),
            inner@.len() >= 2,
            i <= items@.len(),
            args@.len() == i,
            forall|j: int| 0 <= j < i ==> (#[trigger] key_value(iv[j])) is Some,
            forall|j: int| 0 <= j < i ==> #[trigger] pairs_view(args@)[j] == key_value(iv[j])->0,
        decreases items@.len() - i,
    {
        match key_val(items[i].as_str()) {
            None => {
                assert(!all_pairs(iv)) by {
                    assert(key_value(iv[i as int]) is None);
                }
                return None;
            },
            Some(p) => {
                let ghost old_args = args@;
                args.push(p);
                assert forall|j: int| 0 <= j < i + 1 implies #[trigger] pairs_view(args@)[j]
                    == key_value(iv[j])->0 by {
                    if j < i {
                        assert(pairs_view(args@)[j] == pairs_view(old_args)[j]);
                    }
                }
            },
        }
        i = i + 1;
    }
    assert(pairs_view(args@) =~= iv.map_values(|t: Seq<char>| key_value(t)->0));
    Some(args)
}

/// The value given last for `key` in `args`.
pub fn arg_value(args: &Vec<(String, String)>, key: &str) -> (r: Option<String>)
    ensures
        r matches Some(v) ==> lookup(pairs_view(args@), key@) == Some(v@),
        r is None <==> lookup(pairs_view(args@), key@) is None,
{
    let mut n: usize = args.len();
    while n > 0
        invariant
            n <= args@.len(),
            lookup(pairs_view(args@), key@) == lookup_upto(pairs_view(args@), key@, n as int),
        decreases n,
    {
        if same_text(args[n - 1].0.as_str(), key) {
            return Some(args[n - 1].1.clone());
        }
        n = n - 1;
    }
    None
}

/// The value of a run of decimal digits, where it is at most `max`.
pub fn parse_decimal(s: &str, max: u64) -> (r: Option<u64>)
    ensures
        r matches Some(v) ==> is_decimal(s@) && v == decimal_value(s@) && v <= max,
        r is None <==> !(is_decimal(s@) && decimal_value(s@) <= max),
{
    let n = s.unicode_len();
    if n == 0 {
        return None;
    }
    let mut v: u64 = 0;
    let mut i: usize = 0;
    while i < n
        invariant
            n == s@.len(),
            i <= n,
            v <= max,
            v == decimal_value(s@.subrange(0, i as int)),
            forall|k: int| 0 <= k < i ==> is_digit(#[trigger] s@[k]),
        decreases n - i,
    {
        let c = s.get_char(i);
        assert(s@.subrange(0, i + 1).drop_last() =~= s@.subrange(0, i as int));
        if c < '0' || c > '9' {
            return None;
        }
        let d: u64 = (c as u32 - '0' as u32) as u64;
        if d > max || v > (max - d) / 10 {
            proof {
                let p = s@.subrange(0, i + 1);
                assert(p.drop_last() =~= s@.subrange(0, i as int));
                assert(decimal_value(p) == v * 10 + d);
                assert(v * 10 + d > max) by (nonlinear_arith)
                    requires
                        d > max || v > (max - d) / 10,
                ;
                if is_decimal(s@) {
                    lemma_decimal_prefix(s@, i as int + 1);
                }
            }
            return None;
        }
        assert(v * 10 + d <= max) by (nonlinear_arith)
            requires
                d <= max,
                v <= (max - d) / 10,
        ;
        v = v * 10 + d;
        i = i + 1;
    }
    assert(s@.subrange(0, n as int) =~= s@);
    Some(v)
}

proof fn lemma_decimal_prefix(s: Seq<char>, i: int)
    requires
        0 <= i <= s.len(),
        is_decimal(s),
    ensures
        decimal_value(s.subrange(0, i)) <= decimal_value(s),
    decreases s.len() - i,
{
    if i < s.len() {
        lemma_decimal_prefix(s, i + 1);
        assert(s.subrange(0, i + 1).drop_last() =~= s.subrange(0, i));
    } else {
        assert(s.subrange(0, i) =~= s);
    }
}

/// Whether std classifies `c` as uppercase (the Unicode `Uppercase` property).
pub uninterp spec fn is_upper(c: char) -> bool;

/// The first character of std's lowercase mapping of `c`.
pub uninterp spec fn lower_of(c: char) -> char;

/// Relies on `char::is_uppercase`, which on ASCII holds exactly for `A`..=`Z`.
#[verifier::external_body]
fn is_uppercase(c: char) -> (r: bool)
    ensures
        r == is_upper(c),
        (c as u32) < 128 ==> (r <==> ('A' <= c && c <= 'Z')),
{
    c.is_uppercase()
}

/// Relies on `char::to_lowercase`, which yields one or more characters (this
/// is the first) and maps `A`..=`Z` to `a`..=`z`.
#[verifier::external_body]
fn first_lowercase(c: char) -> (r: char)
    ensures
        r == lower_of(c),
        ('A' <= c && c <= 'Z') ==> r as u32 == c as u32 + 32,
{
    c.to_lowercase().next().unwrap()
}

/// The text that stands for `c`, which follows `prev`, in a snake-case name,
/// given whether `c` is uppercase and its lowercase form: an uppercase
/// character becomes its lowercase form, preceded by `_` unless `prev` is `_`.
pub open spec fn snake_piece(prev: char, c: char, upper: bool, lower: char) -> Seq<char> {
    if upper {
        if prev != '_' {
            seq!['_', lower]
        } else {
            seq![lower]
        }
    } else {
        seq![c]
    }
}

/// The snake-case form of the first `n` characters of `s`; the character
/// before the first counts as `_`.
pub open spec fn snake_prefix(s: Seq<char>, n: int) -> Seq<char>
    decreases n,
{
    if n <= 0 || n > s.len() {
        Seq::empty()
    } else {
        let prev = if n == 1 {
            '_'
        } else {
            s[n - 2]
        };
        snake_prefix(s, n - 1) + snake_piece(prev, s[n - 1], is_upper(s[n - 1]), lower_of(s[n - 1]))
    }
}

/// The snake-case form of a camel-case name (`MainShader` gives `main_shader`).
pub open spec fn snake_case(s: Seq<char>) -> Seq<char> {
    snake_prefix(s, s.len() as int)
}

/// Appends the snake-case text for `c`, which follows `prev`, given whether
/// `c` is uppercase and its lowercase form.
pub fn push_snake_piece(out: &mut String, prev: char, c: char, upper: bool, lower: char)
    ensures
        final(out)@ == old(out)@ + snake_piece(prev, c, upper, lower),
{
    if upper {
        if prev != '_' {
            push_char(out, '_');
        }
        push_char(out, lower);
    } else {
        push_char(out, c);
    }
    assert(final(out)@ =~= old(out)@ + snake_piece(prev, c, upper, lower));
}

/// The snake-case form of a camel-case name.
pub fn transform_name(name: &str) -> (r: String)
    ensures
        r@ == snake_case(name@),
{
    let s = chars_of(name);
    let n = s.len();
    let mut out = String::new();
    let mut prev: char = '_';
    let mut i: usize = 0;
    while i < n
        invariant
            s@ == name@,
            n == s@.len(),
            i <= n,
            out@ == snake_prefix(name@, i as int),
            prev == if i == 0 {
                '_'
            } else {
                name@[i - 1]
            },
        decreases n - i,
    {
        let c = s[i];
        let upper = is_uppercase(c);
        let lower = first_lowercase(c);
        push_snake_piece(&mut out, prev, c, upper, lower);
        prev = c;
        i = i + 1;
    }
    out
}

} // verus!
