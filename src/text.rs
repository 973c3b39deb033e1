//! Character-level helpers shared by the record codec and the document parser:
//! splitting, joining, decimal numbers and the normalisation of a line.

use vstd::prelude::*;

verus! {

/// Whether `c` is an ASCII decimal digit.
pub open spec fn is_digit(c: char) -> bool {
    48 <= (c as u32) <= 57
}

/// The numeric value of a decimal digit character.
pub open spec fn digit_value(c: char) -> nat {
    ((c as u32) - 48) as nat
}

/// Whether every character of `s` is a decimal digit.
pub open spec fn all_digits(s: Seq<char>) -> bool {
    forall|i: int| 0 <= i < s.len() ==> is_digit(#[trigger] s[i])
}

/// The value of a digit string read in base ten, most significant digit first.
pub open spec fn digits_value(s: Seq<char>) -> nat
    decreases s.len(),
{
    if s.len() == 0 {
        0
    } else {
        digits_value(s.drop_last()) * 10 + digit_value(s.last())
    }
}

/// What `str::parse::<u32>` accepts: an optional `+`, then at least one decimal
/// digit, with a value that fits in 32 bits.
pub open spec fn parse_u32_spec(s: Seq<char>) -> Option<u32> {
    let d = if s.len() > 0 && s[0] == '+' { s.drop_first() } else { s };
    if d.len() > 0 && all_digits(d) && digits_value(d) <= u32::MAX {
        Some(digits_value(d) as u32)
    } else {
        None
    }
}

/// The character of a digit value below ten.
pub open spec fn digit_char(d: nat) -> char {
    ((d + 48) as u8) as char
}

/// The shortest decimal text of `n`.
pub open spec fn decimal(n: nat) -> Seq<char>
    decreases n,
{
    if n < 10 {
        seq![digit_char(n)]
    } else {
        decimal(n / 10).push(digit_char(n % 10))
    }
}

/// `s` cut at every occurrence of `sep`; an empty input gives one empty piece.
pub open spec fn split_on(s: Seq<char>, sep: char) -> Seq<Seq<char>>
    decreases s.len(),
{
    if s.len() == 0 {
        seq![Seq::empty()]
    } else {
        let init = split_on(s.drop_last(), sep);
        if s.last() == sep {
            init.push(Seq::empty())
        } else {
            init.update(init.len() - 1, init.last().push(s.last()))
        }
    }
}

/// The pieces of `parts` with `sep` between each two neighbours.
pub open spec fn join_with(parts: Seq<Seq<char>>, sep: char) -> Seq<char>
    decreases parts.len(),
{
    if parts.len() == 0 {
        Seq::empty()
    } else if parts.len() == 1 {
        parts[0]
    } else {
        join_with(parts.drop_last(), sep).push(sep) + parts.last()
    }
}

/// Every tab of `s` turned into a space.
pub open spec fn tabs_to_spaces(s: Seq<char>) -> Seq<char> {
    s.map_values(|c: char| if c == '\t' { ' ' } else { c })
}

/// `s` without its comments: each `;` and what follows it up to the next line
/// break are dropped.
pub open spec fn strip_comments_from(s: Seq<char>, in_comment: bool) -> Seq<char>
    decreases s.len(),
{
    if s.len() == 0 {
        s
    } else if s[0] == '\n' {
        seq!['\n'] + strip_comments_from(s.drop_first(), false)
    } else if in_comment || s[0] == ';' {
        strip_comments_from(s.drop_first(), true)
    } else {
        seq![s[0]] + strip_comments_from(s.drop_first(), false)
    }
}

pub open spec fn strip_comments(s: Seq<char>) -> Seq<char> {
    strip_comments_from(s, false)
}

/// `s` with every run of spaces shortened to one space; `after_space` says
/// whether the character before `s` was a space that is kept.
pub open spec fn collapse_spaces_from(s: Seq<char>, after_space: bool) -> Seq<char>
    decreases s.len(),
{
    if s.len() == 0 {
        s
    } else if s[0] == ' ' && after_space {
        collapse_spaces_from(s.drop_first(), true)
    } else {
        seq![s[0]] + collapse_spaces_from(s.drop_first(), s[0] == ' ')
    }
}

pub open spec fn collapse_spaces(s: Seq<char>) -> Seq<char> {
    collapse_spaces_from(s, false)
}

/// A record line made ready for tokenising: tabs become spaces, comments go,
/// runs of spaces shrink to one.
pub open spec fn clean_line(s: Seq<char>) -> Seq<char> {
    collapse_spaces(strip_comments(tabs_to_spaces(s)))
}

/// The tokens of a record line.
pub open spec fn tokens_of(s: Seq<char>) -> Seq<Seq<char>> {
    split_on(clean_line(s), ' ')
}

/// Whether `p` occurs in `s`.
pub open spec fn contains_seq(s: Seq<char>, p: Seq<char>) -> bool {
    exists|i: int| 0 <= i && i + p.len() <= s.len() && #[trigger] s.subrange(i, i + p.len()) == p
}

/// `s` with the occurrences of `p` removed, scanning from the left and
/// taking matches that do not overlap.
pub open spec fn remove_all(s: Seq<char>, p: Seq<char>) -> Seq<char>
    decreases s.len(),
{
    if s.len() == 0 {
        s
    } else if p.len() > 0 && p.len() <= s.len() && s.subrange(0, p.len() as int) == p {
        remove_all(s.subrange(p.len() as int, s.len() as int), p)
    } else {
        seq![s[0]] + remove_all(s.drop_first(), p)
    }
}

/// `s` without any `c`.
pub open spec fn drop_char(s: Seq<char>, c: char) -> Seq<char>
    decreases s.len(),
{
    if s.len() == 0 {
        s
    } else if s.last() == c {
        drop_char(s.drop_last(), c)
    } else {
        drop_char(s.drop_last(), c).push(s.last())
    }
}

/// Whether no character of `s` is `c`.
pub open spec fn lacks(s: Seq<char>, c: char) -> bool {
    forall|i: int| 0 <= i < s.len() ==> #[trigger] s[i] != c
}

/// Whether no two neighbouring characters of `s` are both spaces.
pub open spec fn no_double_space(s: Seq<char>) -> bool {
    forall|i: int| 0 <= i < s.len() - 1 ==> !(#[trigger] s[i] == ' ' && s[i + 1] == ' ')
}

/// Relies on `str::chars`: the characters of the string, in order.
#[verifier::external_body]
pub(crate) fn chars_of(s: &str) -> (r: Vec<char>)
    ensures
        r@ == s@,
{
    s.chars().collect()
}

/// Relies on `String: FromIterator<char>`: the string of these characters.
#[verifier::external_body]
pub(crate) fn string_of(v: &Vec<char>) -> (r: String)
    ensures
        r@ == v@,
{
    v.iter().collect()
}


/// Relies on `regex::Regex::replace_all` with the pattern `(;.*)+` and an empty
/// replacement: `.` matches any character but a line break, so every match runs
/// from a `;` to the end of its line, and all of them are removed.
#[verifier::external_body]
pub(crate) fn remove_comments(s: &str) -> (r: String)
    ensures
        r@ == strip_comments(s@),
{
    let re = regex::Regex::new(r"(;.*)+").unwrap();
    re.replace_all(s, "").to_string()
}

/// Relies on `regex::Regex::replace_all` with the pattern ` {2,}` and the
/// replacement `" "`: every run of two or more spaces becomes one space.
#[verifier::external_body]
pub(crate) fn squeeze_spaces(s: &str) -> (r: String)
    ensures
        r@ == collapse_spaces(s@),
{
    let re = regex::Regex::new(r" {2,}").unwrap();
    re.replace_all(s, " ").to_string()
}

/// The views of a list of character vectors.
pub open spec fn views_of(v: Seq<Vec<char>>) -> Seq<Seq<char>> {
    v.map_values(|t: Vec<char>| t@)
}

/// Cuts `s` at every `sep`.
pub fn split_chars(s: &Vec<char>, sep: char) -> (r: Vec<Vec<char>>)
    ensures
        views_of(r@) == split_on(s@, sep),
{
    let mut parts: Vec<Vec<char>> = Vec::new();
    let mut cur: Vec<char> = Vec::new();
    let mut i: usize = 0;
    assert(s@.subrange(0, 0) =~= Seq::<char>::empty());
    assert(views_of(parts@).push(cur@) =~= seq![Seq::<char>::empty()]);
    while i < s.len()
        invariant
            i <= s.len(),
            views_of(parts@).push(cur@) == split_on(s@.subrange(0, i as int), sep),
        decreases s.len() - i,
    {
        let c = s[i];
        proof {
            assert(s@.subrange(0, i + 1).drop_last() =~= s@.subrange(0, i as int));
        }
        if c == sep {
            let done = cur;
            parts.push(done);
            cur = Vec::new();
            assert(views_of(parts@).push(cur@) =~= split_on(s@.subrange(0, i + 1), sep));
        } else {
            cur.push(c);
            assert(views_of(parts@).push(cur@) =~= split_on(s@.subrange(0, i + 1), sep));
        }
        i = i + 1;
    }
    assert(s@.subrange(0, i as int) =~= s@);
    parts.push(cur);
    assert(views_of(parts@) =~= split_on(s@, sep));
    parts
}

/// Turns every tab of `s` into a space.
pub fn replace_tabs(s: &Vec<char>) -> (r: Vec<char>)
    ensures
        r@ == tabs_to_spaces(s@),
{
    let mut out: Vec<char> = Vec::new();
    let mut i: usize = 0;
    while i < s.len()
        invariant
            i <= s.len(),
            out@ =~= tabs_to_spaces(s@.subrange(0, i as int)),
        decreases s.len() - i,
    {
        let c = s[i];
        if c == '\t' {
            out.push(' ');
        } else {
            out.push(c);
        }
        i = i + 1;
    }
    assert(s@.subrange(0, i as int) =~= s@);
    out
}

/// A digit string's value never falls short of the value of one of its prefixes.
pub proof fn lemma_prefix_value_le(s: Seq<char>, j: int)
    requires
        all_digits(s),
        0 <= j <= s.len(),
    ensures
        digits_value(s.subrange(0, j)) <= digits_value(s),
    decreases s.len(),
{
    if j < s.len() {
        let t = s.drop_last();
        assert(all_digits(t)) by {
            assert forall|i: int| 0 <= i < t.len() implies is_digit(#[trigger] t[i]) by {
                assert(t[i] == s[i]);
            }
        }
        lemma_prefix_value_le(t, j);
        assert(t.subrange(0, j) =~= s.subrange(0, j));
    } else {
        assert(s.subrange(0, j) =~= s);
    }
}

/// Reads a decimal number as `str::parse::<u32>` does.
pub fn parse_u32(s: &Vec<char>) -> (r: Option<u32>)
    ensures
        r == parse_u32_spec(s@),
{
    let start: usize = if s.len() > 0 && s[0] == '+' { 1 } else { 0 };
    let ghost d = if s@.len() > 0 && s@[0] == '+' { s@.drop_first() } else { s@ };
    assert(d =~= s@.subrange(start as int, s@.len() as int));
    if start == s.len() {
        return None;
    }
    let mut acc: u64 = 0;
    let mut i: usize = start;
    assert(d.subrange(0, 0) =~= Seq::<char>::empty());
    while i < s.len()
        invariant
            start <= i <= s.len(),
            d =~= s@.subrange(start as int, s@.len() as int),
            d == (if s@.len() > 0 && s@[0] == '+' { s@.drop_first() } else { s@ }),
            acc <= u32::MAX,
            acc == digits_value(d.subrange(0, i - start)),
            all_digits(d.subrange(0, i - start)),
        decreases s.len() - i,
    {
        let c = s[i];
        let k = i - start;
        if !((c as u32) >= 48 && (c as u32) <= 57) {
            assert(d[k as int] == c);
            assert(!is_digit(d[k as int]));

            return None;
        }
        let nv: u64 = acc * 10 + ((c as u32) - 48) as u64;
        let ghost p = d.subrange(0, k + 1);
        assert(p.drop_last() =~= d.subrange(0, k as int));
        assert(p.last() == c);
        assert(all_digits(p)) by {
            assert forall|j: int| 0 <= j < p.len() implies is_digit(#[trigger] p[j]) by {
                if j < k {
                    assert(p[j] == d.subrange(0, k as int)[j]);
                }
            }
        }
        assert(nv == digits_value(p));
        if nv > u32::MAX as u64 {
            proof {
                if all_digits(d) {
                    lemma_prefix_value_le(d, k + 1);
                    assert(digits_value(d) > u32::MAX);
                }
            }
            return None;
        }
        acc = nv;
        i = i + 1;
    }
    assert(d.subrange(0, i - start) =~= d);
    Some(acc as u32)
}

/// Appends the characters of `s` to `out`.
pub fn push_all(out: &mut Vec<char>, s: &Vec<char>)
    ensures
        final(out)@ == old(out)@ + s@,
{
    let mut i: usize = 0;
    while i < s.len()
        invariant
            i <= s.len(),
            out@ == old(out)@ + s@.subrange(0, i as int),
        decreases s.len() - i,
    {
        out.push(s[i]);
        i = i + 1;
        assert(out@ =~= old(out)@ + s@.subrange(0, i as int));
    }
    assert(s@.subrange(0, i as int) =~= s@);
}

/// The pieces of `parts` with `sep` between each two neighbours.
pub fn join_chars(parts: &Vec<Vec<char>>, sep: char) -> (r: Vec<char>)
    ensures
        r@ == join_with(views_of(parts@), sep),
{
    let mut out: Vec<char> = Vec::new();
    let mut i: usize = 0;
    assert(views_of(parts@).subrange(0, 0) =~= Seq::<Seq<char>>::empty());
    while i < parts.len()
        invariant
            i <= parts.len(),
            out@ == join_with(views_of(parts@).subrange(0, i as int), sep),
        decreases parts.len() - i,
    {
        let ghost before = views_of(parts@).subrange(0, i as int);
        let ghost after = views_of(parts@).subrange(0, i + 1);
        assert(after.drop_last() =~= before);
        if i > 0 {
            out.push(sep);
        } else {
            assert(out@ =~= Seq::<char>::empty());
        }
        push_all(&mut out, &parts[i]);
        i = i + 1;
    }
    assert(views_of(parts@).subrange(0, i as int) =~= views_of(parts@));
    out
}

/// Whether `p` occurs in `s` at position `i`.
pub fn matches_at(s: &Vec<char>, p: &Vec<char>, i: usize) -> (r: bool)
    requires
        i <= s.len(),
    ensures
        r == (i + p.len() <= s.len() && s@.subrange(i as int, i + p.len()) == p@),
{
    if p.len() > s.len() - i {
        return false;
    }
    let mut j: usize = 0;
    while j < p.len()
        invariant
            j <= p.len(),
            i + p.len() <= s.len(),
            forall|k: int| 0 <= k < j ==> s@[i + k] == p@[k],
        decreases p.len() - j,
    {
        if s[i + j] != p[j] {
            assert(s@.subrange(i as int, i + p.len())[j as int] != p@[j as int]);
            return false;
        }
        j = j + 1;
    }
    assert(s@.subrange(i as int, i + p.len()) =~= p@);
    true
}

/// Whether `p` occurs in `s`.
pub fn contains_chars(s: &Vec<char>, p: &Vec<char>) -> (r: bool)
    ensures
        r == contains_seq(s@, p@),
{
    if p.len() > s.len() {
        return false;
    }
    let last = s.len() - p.len();
    let mut i: usize = 0;
    while i < last
        invariant
            i <= last,
            last + p.len() == s.len(),
            forall|k: int| 0 <= k < i ==> #[trigger] s@.subrange(k, k + p@.len()) != p@,
        decreases last - i,
    {
        if matches_at(s, p, i) {
            return true;
        }
        i = i + 1;
    }
    if matches_at(s, p, last) {
        return true;
    }
    assert forall|k: int| 0 <= k && k + p@.len() <= s@.len() implies #[trigger] s@.subrange(k, k + p@.len()) != p@ by {
        assert(k <= last);
    }
    false
}

/// Removes the occurrences of `p` from `s`, as `str::replace(p, "")` does.
pub fn remove_all_chars(s: &Vec<char>, p: &Vec<char>) -> (r: Vec<char>)
    ensures
        r@ == remove_all(s@, p@),
{
    let mut out: Vec<char> = Vec::new();
    let mut i: usize = 0;
    assert(s@.subrange(0, s@.len() as int) =~= s@);
    while i < s.len()
        invariant
            i <= s.len(),
            out@ + remove_all(s@.subrange(i as int, s@.len() as int), p@) == remove_all(s@, p@),
        decreases s.len() - i,
    {
        let ghost rest = s@.subrange(i as int, s@.len() as int);
        if p.len() > 0 && matches_at(s, p, i) {
            assert(rest.subrange(0, p@.len() as int) =~= s@.subrange(i as int, i + p.len()));
            assert(rest.subrange(p@.len() as int, rest.len() as int) =~= s@.subrange(i + p.len(), s@.len() as int));
            i = i + p.len();
        } else {
            proof {
                if p@.len() > 0 && p@.len() <= rest.len() {
                    assert(rest.subrange(0, p@.len() as int) =~= s@.subrange(i as int, i + p@.len()));
                }
            }
            assert(rest.drop_first() =~= s@.subrange(i + 1, s@.len() as int));
            let ghost before = out@;
            out.push(s[i]);
            assert(out@ + remove_all(rest.drop_first(), p@) =~= before + (seq![rest[0]] + remove_all(rest.drop_first(), p@)));
            i = i + 1;
        }
    }
    assert(s@.subrange(i as int, s@.len() as int) =~= Seq::<char>::empty());
    assert(out@ + Seq::<char>::empty() =~= out@);
    out
}

/// `s` without any `c`.
pub fn drop_char_chars(s: &Vec<char>, c: char) -> (r: Vec<char>)
    ensures
        r@ == drop_char(s@, c),
{
    let mut out: Vec<char> = Vec::new();
    let mut i: usize = 0;
    assert(s@.subrange(0, 0) =~= Seq::<char>::empty());
    while i < s.len()
        invariant
            i <= s.len(),
            out@ == drop_char(s@.subrange(0, i as int), c),
        decreases s.len() - i,
    {
        assert(s@.subrange(0, i + 1).drop_last() =~= s@.subrange(0, i as int));
        if s[i] != c {
            out.push(s[i]);
        }
        i = i + 1;
    }
    assert(s@.subrange(0, i as int) =~= s@);
    out
}

/// The character of a digit value below ten.
fn digit_to_char(d: u32) -> (c: char)
    requires
        d < 10,
    ensures
        c == digit_char(d as nat),
{
    ((d + 48) as u8) as char
}

/// The shortest decimal text of `n`.
pub fn render_u32(n: u32) -> (r: Vec<char>)
    ensures
        r@ == decimal(n as nat),
    decreases n,
{
    if n < 10 {
        let mut v: Vec<char> = Vec::new();
        v.push(digit_to_char(n));
        assert(v@ =~= decimal(n as nat));
        v
    } else {
        let mut v = render_u32(n / 10);
        v.push(digit_to_char(n % 10));
        v
    }
}

/// The decimal text of a number reads back as that number.
pub proof fn lemma_decimal_parses(n: nat)
    ensures
        decimal(n).len() > 0,
        all_digits(decimal(n)),
        digits_value(decimal(n)) == n,
    decreases n,
{
    let c = digit_char(n % 10);
    assert(digit_value(c) == n % 10 && is_digit(c));
    if n < 10 {
        assert(decimal(n) == seq![c]);
        assert(decimal(n).drop_last() =~= Seq::<char>::empty());
        assert(digits_value(decimal(n)) == digits_value(Seq::<char>::empty()) * 10 + digit_value(c));
    } else {
        lemma_decimal_parses(n / 10);
        let d = decimal(n);
        assert(d.drop_last() =~= decimal(n / 10));
        assert(d.last() == c);
        assert((n / 10) * 10 + n % 10 == n) by (nonlinear_arith);
        assert(digits_value(d) == digits_value(decimal(n / 10)) * 10 + digit_value(c));
        assert forall|i: int| 0 <= i < d.len() implies is_digit(#[trigger] d[i]) by {
            if i < d.len() - 1 {
                assert(d[i] == decimal(n / 10)[i]);
            }
        }
    }
}

/// `parse_u32_spec` reads back what `decimal` writes.
pub proof fn lemma_parse_decimal(n: u32)
    ensures
        parse_u32_spec(decimal(n as nat)) == Some(n),
{
    lemma_decimal_parses(n as nat);
    assert(is_digit(decimal(n as nat)[0]));
}

pub proof fn lemma_strip_lacks(s: Seq<char>, b: bool, c: char)
    ensures
        lacks(strip_comments_from(s, b), ';'),
        lacks(s, c) ==> lacks(strip_comments_from(s, b), c),
    decreases s.len(),
{
    if s.len() > 0 {
        let rest = s.drop_first();
        lemma_strip_lacks(rest, s[0] != '\n' && (b || s[0] == ';'), c);
        lemma_strip_lacks(rest, false, c);
        lemma_strip_lacks(rest, true, c);
        if lacks(s, c) {
            assert forall|i: int| 0 <= i < rest.len() implies #[trigger] rest[i] != c by {
                assert(rest[i] == s[i + 1]);
            }
        }
        let r = strip_comments_from(s, b);
        let tail = strip_comments_from(rest, s[0] != '\n' && (b || s[0] == ';'));
        if s[0] == '\n' || !(b || s[0] == ';') {
            assert(r == seq![s[0]] + tail);
            assert forall|i: int| 0 <= i < r.len() implies #[trigger] r[i] != ';' by {
                if i > 0 {
                    assert(r[i] == tail[i - 1]);
                }
            }
            if lacks(s, c) {
                assert forall|i: int| 0 <= i < r.len() implies #[trigger] r[i] != c by {
                    if i > 0 {
                        assert(r[i] == tail[i - 1]);
                    }
                }
            }
        }
    }
}

/// Stripping comments from a text without `;` changes nothing.
pub proof fn lemma_strip_id(s: Seq<char>)
    requires
        lacks(s, ';'),
    ensures
        strip_comments_from(s, false) == s,
    decreases s.len(),
{
    if s.len() > 0 {
        let rest = s.drop_first();
        assert forall|i: int| 0 <= i < rest.len() implies #[trigger] rest[i] != ';' by {
            assert(rest[i] == s[i + 1]);
        }
        lemma_strip_id(rest);
        assert(s[0] != ';');
        assert(seq![s[0]] + rest =~= s);
    }
}

pub proof fn lemma_collapse_facts(s: Seq<char>, b: bool, c: char)
    ensures
        no_double_space(collapse_spaces_from(s, b)),
        b && collapse_spaces_from(s, b).len() > 0 ==> collapse_spaces_from(s, b)[0] != ' ',
        lacks(s, c) ==> lacks(collapse_spaces_from(s, b), c),
    decreases s.len(),
{
    if s.len() > 0 {
        let rest = s.drop_first();
        if lacks(s, c) {
            assert forall|i: int| 0 <= i < rest.len() implies #[trigger] rest[i] != c by {
                assert(rest[i] == s[i + 1]);
            }
        }
        if s[0] == ' ' && b {
            lemma_collapse_facts(rest, true, c);
        } else {
            let nb = s[0] == ' ';
            lemma_collapse_facts(rest, nb, c);
            let tail = collapse_spaces_from(rest, nb);
            let r = collapse_spaces_from(s, b);
            assert(r == seq![s[0]] + tail);
            assert forall|i: int| 0 <= i < r.len() - 1 implies !(#[trigger] r[i] == ' ' && r[i + 1] == ' ') by {
                assert(r[i + 1] == tail[i]);
                if i > 0 {
                    assert(r[i] == tail[i - 1]);
                }
            }
            if lacks(s, c) {
                assert forall|i: int| 0 <= i < r.len() implies #[trigger] r[i] != c by {
                    if i > 0 {
                        assert(r[i] == tail[i - 1]);
                    }
                }
            }
        }
    }
}

/// Collapsing a text without double spaces changes nothing.
pub proof fn lemma_collapse_id(s: Seq<char>, b: bool)
    requires
        no_double_space(s),
        b ==> s.len() == 0 || s[0] != ' ',
    ensures
        collapse_spaces_from(s, b) == s,
    decreases s.len(),
{
    if s.len() > 0 {
        let rest = s.drop_first();
        assert forall|i: int| 0 <= i < rest.len() - 1 implies !(#[trigger] rest[i] == ' ' && rest[i + 1] == ' ') by {
            assert(rest[i] == s[i + 1]);
            assert(rest[i + 1] == s[i + 2]);
        }
        if s[0] == ' ' && rest.len() > 0 {
            assert(rest[0] == s[1]);
        }
        lemma_collapse_id(rest, s[0] == ' ');
        assert(seq![s[0]] + rest =~= s);
    }
}

pub proof fn lemma_tabs_facts(s: Seq<char>, c: char)
    ensures
        lacks(tabs_to_spaces(s), '\t'),
        lacks(s, c) && c != ' ' ==> lacks(tabs_to_spaces(s), c),
        lacks(s, '\t') ==> tabs_to_spaces(s) == s,
{
    if lacks(s, '\t') {
        assert(tabs_to_spaces(s) =~= s);
    }
}

/// Facts about the pieces of `split_on(s, sep)`.
pub proof fn lemma_split_facts(s: Seq<char>, sep: char, c: char)
    ensures
        split_on(s, sep).len() >= 1,
        forall|k: int| 0 <= k < split_on(s, sep).len() ==> lacks(#[trigger] split_on(s, sep)[k], sep),
        lacks(s, c) ==> forall|k: int| 0 <= k < split_on(s, sep).len() ==> lacks(#[trigger] split_on(s, sep)[k], c),
        split_on(s, sep).last().len() == 0 <==> (s.len() == 0 || s.last() == sep),
        sep == ' ' && no_double_space(s) ==> forall|k: int|
            0 < k < split_on(s, sep).len() - 1 ==> (#[trigger] split_on(s, sep)[k]).len() > 0,
    decreases s.len(),
{
    if s.len() > 0 {
        let x = s.drop_last();
        lemma_split_facts(x, sep, c);
        if lacks(s, c) {
            assert forall|i: int| 0 <= i < x.len() implies #[trigger] x[i] != c by {
                assert(x[i] == s[i]);
            }
        }
        if sep == ' ' && no_double_space(s) {
            assert forall|i: int| 0 <= i < x.len() - 1 implies !(#[trigger] x[i] == ' ' && x[i + 1] == ' ') by {
                assert(x[i] == s[i]);
                assert(x[i + 1] == s[i + 1]);
            }
            if x.len() > 0 && s.last() == sep {
                assert(x.last() == s[s.len() - 2]);
            }
        }
        let px = split_on(x, sep);
        let ps = split_on(s, sep);
        if s.last() != sep {
            let l = px.last().push(s.last());
            assert(ps == px.update(px.len() - 1, l));
            assert forall|i: int| 0 <= i < l.len() implies #[trigger] l[i] != sep by {
                if i < l.len() - 1 {
                    assert(l[i] == px.last()[i]);
                }
            }
            if lacks(s, c) {
                assert forall|i: int| 0 <= i < l.len() implies #[trigger] l[i] != c by {
                    if i < l.len() - 1 {
                        assert(l[i] == px.last()[i]);
                    }
                }
            }
        }
    }
}

/// Splitting `x + y`, where `y` has no separator, extends the last piece of
/// `x` by `y`.
pub proof fn lemma_split_append(x: Seq<char>, y: Seq<char>, sep: char)
    requires
        lacks(y, sep),
    ensures
        split_on(x + y, sep) == split_on(x, sep).update(
            split_on(x, sep).len() - 1,
            split_on(x, sep).last() + y,
        ),
    decreases y.len(),
{
    lemma_split_facts(x, sep, sep);
    if y.len() == 0 {
        assert(x + y =~= x);
        assert(split_on(x, sep).last() + y =~= split_on(x, sep).last());
        assert(split_on(x, sep).update(split_on(x, sep).len() - 1, split_on(x, sep).last()) =~= split_on(x, sep));
    } else {
        let y0 = y.drop_last();
        assert forall|i: int| 0 <= i < y0.len() implies #[trigger] y0[i] != sep by {
            assert(y0[i] == y[i]);
        }
        lemma_split_append(x, y0, sep);
        assert((x + y).drop_last() =~= x + y0);
        assert((x + y).last() == y.last());
        lemma_split_facts(x + y0, sep, sep);
        let px = split_on(x, sep);
        let q = split_on(x + y0, sep);
        assert(q.len() == px.len());
        assert(q.last() == px.last() + y0);
        assert(y.last() != sep);
        assert(split_on(x + y, sep) == q.update(q.len() - 1, q.last().push(y.last())));
        assert((px.last() + y0).push(y.last()) =~= px.last() + y);
        assert(split_on(x + y, sep) =~= split_on(x, sep).update(
            split_on(x, sep).len() - 1,
            split_on(x, sep).last() + y,
        ));
    }
}

/// Splitting the join of pieces without the separator gives the pieces back.
pub proof fn lemma_split_join(parts: Seq<Seq<char>>, sep: char)
    requires
        parts.len() >= 1,
        forall|k: int| 0 <= k < parts.len() ==> lacks(#[trigger] parts[k], sep),
    ensures
        split_on(join_with(parts, sep), sep) == parts,
    decreases parts.len(),
{
    if parts.len() == 1 {
        lemma_split_append(Seq::empty(), parts[0], sep);
        assert(Seq::<char>::empty() + parts[0] =~= parts[0]);
        assert(split_on(Seq::<char>::empty(), sep) =~= seq![Seq::<char>::empty()]);
        assert(Seq::<char>::empty() + parts[0] =~= parts[0]);
        assert(split_on(parts[0], sep) =~= parts);
    } else {
        let init = parts.drop_last();
        assert forall|k: int| 0 <= k < init.len() implies lacks(#[trigger] init[k], sep) by {
            assert(init[k] == parts[k]);
        }
        lemma_split_join(init, sep);
        let j = join_with(init, sep).push(sep);
        lemma_split_append(j, parts.last(), sep);
        assert(j.drop_last() =~= join_with(init, sep));
        assert(split_on(j, sep) == init.push(Seq::<char>::empty()));
        assert(Seq::<char>::empty() + parts.last() =~= parts.last());
        assert(split_on(join_with(parts, sep), sep) =~= parts);
    }
}

/// A join of pieces without `c` has no `c`, unless `c` is the separator.
pub proof fn lemma_join_lacks(parts: Seq<Seq<char>>, sep: char, c: char)
    requires
        c != sep,
        forall|k: int| 0 <= k < parts.len() ==> lacks(#[trigger] parts[k], c),
    ensures
        lacks(join_with(parts, sep), c),
    decreases parts.len(),
{
    if parts.len() > 1 {
        let init = parts.drop_last();
        assert forall|k: int| 0 <= k < init.len() implies lacks(#[trigger] init[k], c) by {
            assert(init[k] == parts[k]);
        }
        lemma_join_lacks(init, sep, c);
        let a = join_with(init, sep).push(sep);
        let l = parts.last();
        let r = join_with(parts, sep);
        assert(r == a + l);
        assert forall|i: int| 0 <= i < r.len() implies #[trigger] r[i] != c by {
            if i < a.len() {
                assert(r[i] == a[i]);
                if i < a.len() - 1 {
                    assert(a[i] == join_with(init, sep)[i]);
                }
            } else {
                assert(r[i] == l[i - a.len()]);
            }
        }
    } else if parts.len() == 1 {
        assert(lacks(parts[0], c));
    }
}

/// A space-join of pieces without spaces, whose middle pieces are not empty,
/// has no double space.
pub proof fn lemma_join_no_double(parts: Seq<Seq<char>>)
    requires
        forall|k: int| 0 <= k < parts.len() ==> lacks(#[trigger] parts[k], ' '),
        forall|k: int| 0 < k < parts.len() - 1 ==> (#[trigger] parts[k]).len() > 0,
    ensures
        no_double_space(join_with(parts, ' ')),
        parts.len() >= 1 && parts.last().len() > 0 ==> join_with(parts, ' ').len() > 0
            && join_with(parts, ' ').last() == parts.last().last(),
        parts.len() >= 1 ==> (join_with(parts, ' ').len() == 0 <==> (parts.len() == 1 && parts[0].len() == 0)),
    decreases parts.len(),
{
    if parts.len() > 1 {
        let init = parts.drop_last();
        assert forall|k: int| 0 <= k < init.len() implies lacks(#[trigger] init[k], ' ') by {
            assert(init[k] == parts[k]);
        }
        assert forall|k: int| 0 < k < init.len() - 1 implies (#[trigger] init[k]).len() > 0 by {
            assert(init[k] == parts[k]);
        }
        lemma_join_no_double(init);
        let ji = join_with(init, ' ');
        let a = ji.push(' ');
        let l = parts.last();
        let r = join_with(parts, ' ');
        assert(r == a + l);
        if init.len() >= 2 {
            assert(init.last() == parts[parts.len() - 2]);
            assert(init.last().len() > 0);
            assert(lacks(init.last(), ' '));
            assert(ji.last() != ' ');
        }
        if ji.len() > 0 {
            if init.len() == 1 {
                assert(ji == parts[0]);
                assert(lacks(parts[0], ' '));
                assert(ji[ji.len() - 1] != ' ');
            }
        }
        assert forall|i: int| 0 <= i < r.len() - 1 implies !(#[trigger] r[i] == ' ' && r[i + 1] == ' ') by {
            if i + 1 < a.len() - 1 {
                assert(r[i] == ji[i]);
                assert(r[i + 1] == ji[i + 1]);
            } else if i + 1 == a.len() - 1 {
                assert(r[i + 1] == ' ');
                assert(r[i] == ji[i]);
                assert(ji.last() == ji[i]);
            } else if i == a.len() - 1 {
                assert(r[i + 1] == l[0]);
                assert(lacks(l, ' '));
            } else {
                assert(r[i] == l[i - a.len()]);
                assert(r[i + 1] == l[i + 1 - a.len()]);
                assert(lacks(l, ' '));
            }
        }
        if l.len() > 0 {
            assert(r.last() == l.last());
        }
    }
}

/// `remove_all` leaves a text alone where the pattern's first character
/// never occurs.
pub proof fn lemma_remove_all_id(s: Seq<char>, p: Seq<char>)
    requires
        p.len() > 0,
        lacks(s, p[0]),
    ensures
        remove_all(s, p) == s,
    decreases s.len(),
{
    if s.len() > 0 {
        let rest = s.drop_first();
        assert forall|i: int| 0 <= i < rest.len() implies #[trigger] rest[i] != p[0] by {
            assert(rest[i] == s[i + 1]);
        }
        lemma_remove_all_id(rest, p);
        if p.len() <= s.len() {
            assert(s.subrange(0, p.len() as int)[0] == s[0]);
        }
        assert(seq![s[0]] + rest =~= s);
    }
}

/// `drop_char` leaves a text without that character alone.
pub proof fn lemma_drop_char_id(s: Seq<char>, c: char)
    requires
        lacks(s, c),
    ensures
        drop_char(s, c) == s,
    decreases s.len(),
{
    if s.len() > 0 {
        let x = s.drop_last();
        assert forall|i: int| 0 <= i < x.len() implies #[trigger] x[i] != c by {
            assert(x[i] == s[i]);
        }
        lemma_drop_char_id(x, c);
        assert(x.push(s.last()) =~= s);
    }
}

/// A digit string has none of the characters that separate or end fields.
pub proof fn lemma_digits_plain(s: Seq<char>)
    requires
        all_digits(s),
    ensures
        lacks(s, ' '),
        lacks(s, '\n'),
        lacks(s, '\t'),
        lacks(s, ';'),
        lacks(s, '$'),
{
    assert forall|i: int| 0 <= i < s.len() implies #[trigger] s[i] != ' ' && s[i] != '\n' && s[i] != '\t'
        && s[i] != ';' && s[i] != '$' by {
        assert(is_digit(s[i]));
    }
}

} // verus!
