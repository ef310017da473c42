//! Text handling on characters: trimming, splitting, searching and decimal numbers.
//!
//! A string is modelled by its sequence of characters. Everything that the rest of the crate
//! reads out of a line of text is stated with the few functions on such sequences below.
use vstd::prelude::*;

verus! {

/// The characters that count as white space: Unicode's `White_Space` property.
pub open spec fn is_space(c: char) -> bool {
    ||| 0x9 <= c as u32 <= 0xd
    ||| c as u32 == 0x20
    ||| c as u32 == 0x85
    ||| c as u32 == 0xa0
    ||| c as u32 == 0x1680
    ||| 0x2000 <= c as u32 <= 0x200a
    ||| c as u32 == 0x2028
    ||| c as u32 == 0x2029
    ||| c as u32 == 0x202f
    ||| c as u32 == 0x205f
    ||| c as u32 == 0x3000
}

/// How a run of characters is recognised.
pub enum CharClass {
    /// White space.
    Space,
    /// Anything but white space.
    Word,
    /// The one character with this code point.
    Only(u32),
    /// Any character but the one with this code point.
    Except(u32),
}

impl CharClass {
    /// Whether `c` belongs to the class.
    pub open spec fn has(self, c: char) -> bool {
        match self {
            CharClass::Space => is_space(c),
            CharClass::Word => !is_space(c),
            CharClass::Only(x) => c as u32 == x,
            CharClass::Except(x) => c as u32 != x,
        }
    }
}

/// The number of characters at the front of `s` that belong to `class`.
pub open spec fn leading(s: Seq<char>, class: CharClass) -> nat
    decreases s.len(),
{
    if s.len() == 0 || !class.has(s[0]) {
        0
    } else {
        1 + leading(s.drop_first(), class)
    }
}

/// The number of characters at the end of `s` that belong to `class`.
pub open spec fn trailing(s: Seq<char>, class: CharClass) -> nat
    decreases s.len(),
{
    if s.len() == 0 || !class.has(s.last()) {
        0
    } else {
        1 + trailing(s.drop_last(), class)
    }
}

/// `s` without the characters of `class` at its front.
pub open spec fn skip_front(s: Seq<char>, class: CharClass) -> Seq<char> {
    s.skip(leading(s, class) as int)
}

/// `s` without the characters of `class` at its end.
pub open spec fn skip_back(s: Seq<char>, class: CharClass) -> Seq<char> {
    s.take(s.len() - trailing(s, class))
}

/// `s` without white space at either end.
pub open spec fn trimmed(s: Seq<char>) -> Seq<char> {
    skip_back(skip_front(s, CharClass::Space), CharClass::Space)
}

/// The words of `s`: its longest runs without white space, in order.
pub open spec fn words(s: Seq<char>) -> Seq<Seq<char>>
    decreases s.len(),
{
    let t = skip_front(s, CharClass::Space);
    let n = leading(t, CharClass::Word);
    if n == 0 || n > t.len() || t.len() > s.len() {
        seq![]
    } else {
        seq![t.take(n as int)] + words(t.skip(n as int))
    }
}

/// `s` without a carriage return at its end.
pub open spec fn without_cr(s: Seq<char>) -> Seq<char> {
    if s.len() > 0 && s.last() == '\r' {
        s.drop_last()
    } else {
        s
    }
}

/// The lines of `s`. A line ends at a line feed, or at a carriage return and a line feed; the
/// last one needs no ending.
pub open spec fn lines(s: Seq<char>) -> Seq<Seq<char>>
    decreases s.len(),
{
    let n = leading(s, CharClass::Except('\n' as u32));
    if s.len() == 0 {
        seq![]
    } else if n >= s.len() {
        seq![s]
    } else {
        seq![without_cr(s.take(n as int))] + lines(s.skip(n + 1int))
    }
}

/// The parts of `s` between the occurrences of `sep`.
pub open spec fn split(s: Seq<char>, sep: char) -> Seq<Seq<char>>
    decreases s.len(),
{
    let n = leading(s, CharClass::Except(sep as u32));
    if n < s.len() {
        seq![s.take(n as int)] + split(s.skip(n + 1int), sep)
    } else {
        seq![s]
    }
}

/// What stands before and behind the first `sep` of `s`.
pub open spec fn split_once(s: Seq<char>, sep: char) -> Option<(Seq<char>, Seq<char>)> {
    let n = leading(s, CharClass::Except(sep as u32));
    if n >= s.len() {
        None
    } else {
        Some((s.take(n as int), s.skip(n + 1int)))
    }
}

/// What follows `prefix` in `s`, where `s` begins with it.
pub open spec fn strip_prefix(s: Seq<char>, prefix: Seq<char>) -> Option<Seq<char>> {
    if prefix.is_prefix_of(s) {
        Some(s.skip(prefix.len() as int))
    } else {
        None
    }
}

/// Whether `part` stands at index `i` of `s`.
pub open spec fn stands_at(s: Seq<char>, part: Seq<char>, i: int) -> bool {
    0 <= i && i + part.len() <= s.len() && s.subrange(i, i + part.len()) == part
}

/// Whether `part` occurs in `s`.
pub open spec fn occurs(s: Seq<char>, part: Seq<char>) -> bool {
    exists|i: int| stands_at(s, part, i)
}

/// The views of a sequence of strings.
pub open spec fn views(s: Seq<String>) -> Seq<Seq<char>> {
    s.map_values(|x: String| x@)
}

/// `parts` one behind the other, with `sep` between them.
pub open spec fn joined(parts: Seq<Seq<char>>, sep: Seq<char>) -> Seq<char>
    decreases parts.len(),
{
    if parts.len() == 0 {
        seq![]
    } else if parts.len() == 1 {
        parts[0]
    } else {
        joined(parts.drop_last(), sep) + sep + parts.last()
    }
}

/// Whether `c` is one of the ten decimal digits.
pub open spec fn is_digit(c: char) -> bool {
    '0' as u32 <= c as u32 <= '9' as u32
}

/// The number that a sequence of decimal digits writes.
pub open spec fn digits_value(s: Seq<char>) -> nat
    decreases s.len(),
{
    if s.len() == 0 {
        0
    } else {
        10 * digits_value(s.drop_last()) + (s.last() as u32 - '0' as u32) as nat
    }
}

/// `s` without one plus sign that stands before something else.
pub open spec fn without_plus(s: Seq<char>) -> Seq<char> {
    if s.len() > 1 && s[0] == '+' {
        s.skip(1)
    } else {
        s
    }
}

/// The number that `s` writes: decimal digits, at least one, perhaps behind a plus sign, and no
/// more than a `u32` holds.
pub open spec fn number(s: Seq<char>) -> Option<u32> {
    let d = without_plus(s);
    if d.len() > 0 && (forall|i: int| 0 <= i < d.len() ==> is_digit(#[trigger] d[i]))
        && digits_value(d) <= u32::MAX {
        Some(digits_value(d) as u32)
    } else {
        None
    }
}

/// The decimal digit for `n`.
pub open spec fn digit(n: nat) -> char
    recommends
        n < 10,
{
    ('0' as u32 + n) as char
}

/// `n` in decimal.
pub open spec fn decimal(n: nat) -> Seq<char>
    decreases n,
{
    if n < 10 {
        seq![digit(n)]
    } else {
        decimal(n / 10).push(digit(n % 10))
    }
}

/// The lower-case hexadecimal digit for `n`.
pub open spec fn hex_digit(n: nat) -> char
    recommends
        n < 16,
{
    if n < 10 {
        ('0' as u32 + n) as char
    } else {
        ('a' as u32 + (n - 10)) as char
    }
}

/// `n` in hexadecimal, `width` digits long.
pub open spec fn hex(n: nat, width: nat) -> Seq<char>
    decreases width,
{
    if width == 0 {
        seq![]
    } else {
        hex(n / 16, (width - 1) as nat).push(hex_digit(n % 16))
    }
}

/// The text for `b`.
pub open spec fn truth(b: bool) -> Seq<char> {
    if b {
        "true"@
    } else {
        "false"@
    }
}

/// What the standard library makes of bytes that need not be valid UTF-8.
pub uninterp spec fn utf8_lossy(bytes: Seq<u8>) -> Seq<char>;

/// What the standard library makes of a text in lower case.
pub uninterp spec fn lowercase(s: Seq<char>) -> Seq<char>;

/// `c` in lower case, where it is an ASCII letter.
pub open spec fn ascii_lower(c: char) -> char {
    if 'A' as u32 <= c as u32 <= 'Z' as u32 {
        (c as u32 + 32) as char
    } else {
        c
    }
}

/// The lower-case form of a text of ASCII characters.
pub open spec fn ascii_lowered(s: Seq<char>) -> Seq<char> {
    s.map_values(|c: char| ascii_lower(c))
}

/// Calls `String::from_utf8_lossy`. Valid UTF-8 is decoded as it stands; of other bytes nothing
/// more is claimed than that the text depends on them alone.
#[verifier::external_body]
pub(crate) fn from_utf8_lossy(bytes: &[u8]) -> (r: String)
    ensures
        r@ == utf8_lossy(bytes@),
        vstd::utf8::valid_utf8(bytes@) ==> r@ == vstd::utf8::decode_utf8(bytes@),
{
    String::from_utf8_lossy(bytes).into_owned()
}

/// Calls `str::to_lowercase`. ASCII letters are mapped one by one; of other text nothing more is
/// claimed than that the result depends on it alone.
#[verifier::external_body]
pub(crate) fn to_lowercase(s: &str) -> (r: String)
    ensures
        r@ == lowercase(s@),
        vstd::utf8::is_ascii_chars(s@) ==> r@ == ascii_lowered(s@),
{
    s.to_lowercase()
}

/// A run at the front is no longer than the text.
pub proof fn lemma_leading_bound(s: Seq<char>, class: CharClass)
    ensures
        leading(s, class) <= s.len(),
        forall|i: int| 0 <= i < leading(s, class) ==> class.has(#[trigger] s[i]),
        leading(s, class) < s.len() ==> !class.has(s[leading(s, class) as int]),
    decreases s.len(),
{
    if s.len() > 0 && class.has(s[0]) {
        let t = s.drop_first();
        lemma_leading_bound(t, class);
        assert forall|i: int| 0 <= i < leading(s, class) implies class.has(#[trigger] s[i]) by {
            if i > 0 {
                assert(t[i - 1] == s[i]);
            }
        }
    }
}

/// A run at the front is known by its members and by what ends it.
pub proof fn lemma_leading_is(s: Seq<char>, class: CharClass, n: nat)
    requires
        n <= s.len(),
        forall|i: int| 0 <= i < n ==> class.has(#[trigger] s[i]),
        n < s.len() ==> !class.has(s[n as int]),
    ensures
        leading(s, class) == n,
    decreases s.len(),
{
    if n > 0 {
        let t = s.drop_first();
        assert(class.has(s[0]));
        assert forall|i: int| 0 <= i < n - 1 implies class.has(#[trigger] t[i]) by {
            assert(t[i] == s[i + 1]);
        }
        lemma_leading_is(t, class, (n - 1) as nat);
    }
}

/// A run at the end is known by its members and by what begins it.
pub proof fn lemma_trailing_is(s: Seq<char>, class: CharClass, n: nat)
    requires
        n <= s.len(),
        forall|i: int| s.len() - n <= i < s.len() ==> class.has(#[trigger] s[i]),
        n < s.len() ==> !class.has(s[s.len() - n - 1]),
    ensures
        trailing(s, class) == n,
    decreases s.len(),
{
    if n > 0 {
        let t = s.drop_last();
        assert(class.has(s[s.len() - 1]));
        assert forall|i: int| t.len() - (n - 1) <= i < t.len() implies class.has(
            #[trigger] t[i],
        ) by {
            assert(t[i] == s[i]);
        }
        lemma_trailing_is(t, class, (n - 1) as nat);
    }
}

/// The digits of a number write that number, and nothing but digits.
pub proof fn lemma_decimal(n: nat)
    ensures
        decimal(n).len() > 0,
        forall|i: int| 0 <= i < decimal(n).len() ==> is_digit(#[trigger] decimal(n)[i]),
        digits_value(decimal(n)) == n,
    decreases n,
{
    let d = decimal(n);
    if n < 10 {
        assert(d.drop_last() =~= Seq::<char>::empty());
        assert(digits_value(d.drop_last()) == 0);
        assert(d.last() == digit(n));
    } else {
        lemma_decimal(n / 10);
        assert(d.drop_last() =~= decimal(n / 10));
        assert(d.last() == digit(n % 10));
        assert forall|i: int| 0 <= i < d.len() implies is_digit(#[trigger] d[i]) by {
            if i < d.len() - 1 {
                assert(d[i] == decimal(n / 10)[i]);
            }
        }
    }
}

/// A number that was written in decimal is read back.
pub proof fn law_decimal_is_read_back(n: u32)
    ensures
        number(decimal(n as nat)) == Some(n),
{
    lemma_decimal(n as nat);
    let d = decimal(n as nat);
    assert(is_digit(d[0]));
    assert(without_plus(d) == d);
}

/// Two characters are the same where their code points are.
proof fn lemma_code_point(a: char, b: char)
    ensures
        (a as u32 == b as u32) == (a == b),
{
}

/// Whether `s` is empty, or neither begins nor ends with white space.
pub open spec fn is_trimmed(s: Seq<char>) -> bool {
    s.len() > 0 ==> !is_space(s[0]) && !is_space(s.last())
}

/// Whether `s` is white space alone.
pub open spec fn is_blank(s: Seq<char>) -> bool {
    forall|i: int| 0 <= i < s.len() ==> is_space(#[trigger] s[i])
}

/// White space around a text is taken off, and nothing else.
pub proof fn lemma_trim_padding(before: Seq<char>, s: Seq<char>, behind: Seq<char>)
    requires
        is_blank(before),
        is_blank(behind),
        is_trimmed(s),
    ensures
        s.len() > 0 ==> trimmed(before + s + behind) == s,
        before.len() == 0 && behind.len() == 0 ==> trimmed(s) == s,
{
    let all = before + s + behind;
    if s.len() > 0 {
        assert forall|i: int| 0 <= i < before.len() implies is_space(#[trigger] all[i]) by {
            assert(all[i] == before[i]);
        }
        assert(all[before.len() as int] == s[0]);
        lemma_leading_is(all, CharClass::Space, before.len());
        let t = all.skip(before.len() as int);
        assert(t =~= s + behind);
        assert forall|i: int| t.len() - behind.len() <= i < t.len() implies is_space(
            #[trigger] t[i],
        ) by {
            assert(t[i] == behind[i - s.len()]);
        }
        assert(t[t.len() - behind.len() - 1] == s.last());
        lemma_trailing_is(t, CharClass::Space, behind.len());
        assert(t.take(t.len() - behind.len()) =~= s);
    }
    if before.len() == 0 && behind.len() == 0 {
        assert(all =~= s);
        if s.len() == 0 {
            assert(s.skip(0) =~= s);
            assert(s.take(0) =~= s);
        }
    }
}

/// Of white space alone nothing is left.
pub proof fn lemma_trim_blank(s: Seq<char>)
    requires
        is_blank(s),
    ensures
        trimmed(s) == Seq::<char>::empty(),
{
    assert forall|i: int| 0 <= i < s.len() implies CharClass::Space.has(#[trigger] s[i]) by {
        assert(is_space(s[i]));
    }
    lemma_leading_is(s, CharClass::Space, s.len());
    let t = skip_front(s, CharClass::Space);
    assert(t =~= seq![]);
    assert(trimmed(s) =~= seq![]);
}

/// Of anything else something is left.
pub proof fn lemma_trim_leaves(s: Seq<char>)
    requires
        !is_blank(s),
    ensures
        trimmed(s).len() > 0,
{
    let i = choose|i: int| 0 <= i < s.len() && !is_space(s[i]);
    let n = leading(s, CharClass::Space);
    let t = skip_front(s, CharClass::Space);
    lemma_leading_bound(s, CharClass::Space);
    if n == s.len() {
        assert(CharClass::Space.has(s[i]));
    }
    assert(t[0] == s[n as int]);
    lemma_trailing_members(t, CharClass::Space);
    if trailing(t, CharClass::Space) == t.len() {
        lemma_trailing_all(t, CharClass::Space);
        assert(CharClass::Space.has(t[0]));
    }
}

/// A run at the end that is as long as the text holds all of it.
proof fn lemma_trailing_all(s: Seq<char>, class: CharClass)
    requires
        trailing(s, class) == s.len(),
    ensures
        forall|i: int| 0 <= i < s.len() ==> class.has(#[trigger] s[i]),
    decreases s.len(),
{
    if s.len() > 0 {
        let less = s.drop_last();
        lemma_trailing_members(less, class);
        lemma_trailing_all(less, class);
        assert forall|i: int| 0 <= i < s.len() implies class.has(#[trigger] s[i]) by {
            if i < less.len() {
                assert(class.has(less[i]));
            }
        }
    }
}

/// What was trimmed neither begins nor ends with white space.
pub proof fn lemma_trimmed_is_trimmed(s: Seq<char>)
    ensures
        is_trimmed(trimmed(s)),
{
    let t = skip_front(s, CharClass::Space);
    lemma_leading_bound(s, CharClass::Space);
    lemma_trailing_members(t, CharClass::Space);
    let u = trimmed(s);
    if u.len() > 0 {
        assert(u[0] == t[0]);
        assert(t[0] == s[leading(s, CharClass::Space) as int]);
        assert(u.last() == t[u.len() - 1]);
    }
}

/// What stands in front of a run at the end does not belong to it.
pub proof fn lemma_trailing_members(s: Seq<char>, class: CharClass)
    ensures
        trailing(s, class) <= s.len(),
        trailing(s, class) < s.len() ==> !class.has(s[s.len() - trailing(s, class) - 1]),
    decreases s.len(),
{
    if s.len() > 0 && class.has(s.last()) {
        lemma_trailing_members(s.drop_last(), class);
    }
}

/// A text without the white space around it holds no character that the text does not hold.
pub proof fn lemma_trimmed_has_no(s: Seq<char>, c: char)
    requires
        !s.contains(c),
    ensures
        !trimmed(s).contains(c),
{
    let t = skip_front(s, CharClass::Space);
    let u = trimmed(s);
    lemma_leading_bound(s, CharClass::Space);
    lemma_trailing_members(t, CharClass::Space);
    if u.contains(c) {
        let i = choose|i: int| 0 <= i < u.len() && u[i] == c;
        assert(s[leading(s, CharClass::Space) + i] == c);
    }
}

/// No line holds a line feed.
pub proof fn lemma_lines_have_no_feed(s: Seq<char>)
    ensures
        forall|i: int| 0 <= i < lines(s).len() ==> !(#[trigger] lines(s)[i]).contains('\n'),
    decreases s.len(),
{
    let n = leading(s, CharClass::Except('\n' as u32));
    lemma_leading_bound(s, CharClass::Except('\n' as u32));
    assert forall|i: int| 0 <= i < n implies #[trigger] s[i] != '\n' by {
        assert(CharClass::Except('\n' as u32).has(s[i]));
    }
    if s.len() > 0 && n < s.len() {
        let head = without_cr(s.take(n as int));
        let rest = s.skip(n + 1int);
        lemma_lines_have_no_feed(rest);
        assert forall|i: int| 0 <= i < lines(s).len() implies !(#[trigger] lines(s)[i]).contains(
            '\n',
        ) by {
            if i == 0 {
                assert forall|k: int| 0 <= k < head.len() implies #[trigger] head[k] != '\n' by {
                    assert(head[k] == s[k]);
                }
            } else {
                assert(lines(s)[i] == lines(rest)[i - 1]);
            }
        }
    }
}

/// The words of a text that begins with one and goes on behind white space.
pub proof fn lemma_words_step(word: Seq<char>, gap: Seq<char>, rest: Seq<char>)
    requires
        word.len() > 0,
        forall|i: int| 0 <= i < word.len() ==> !is_space(#[trigger] word[i]),
        is_blank(gap),
        gap.len() > 0,
    ensures
        words(word + gap + rest) == seq![word] + words(gap + rest),
{
    let all = word + gap + rest;
    assert(all[0] == word[0]);
    lemma_leading_is(all, CharClass::Space, 0);
    assert(all.skip(0) =~= all);
    assert forall|i: int| 0 <= i < word.len() implies CharClass::Word.has(#[trigger] all[i]) by {
        assert(all[i] == word[i]);
    }
    assert(all[word.len() as int] == gap[0]);
    lemma_leading_is(all, CharClass::Word, word.len());
    assert(all.take(word.len() as int) =~= word);
    assert(all.skip(word.len() as int) =~= gap + rest);
}

/// A text that is one word behind white space.
pub proof fn lemma_last_word(gap: Seq<char>, word: Seq<char>)
    requires
        is_blank(gap),
        word.len() > 0,
        forall|i: int| 0 <= i < word.len() ==> !is_space(#[trigger] word[i]),
    ensures
        words(gap + word) == seq![word],
{
    let all = gap + word;
    assert forall|i: int| 0 <= i < gap.len() implies is_space(#[trigger] all[i]) by {
        assert(all[i] == gap[i]);
    }
    assert(all[gap.len() as int] == word[0]);
    lemma_leading_is(all, CharClass::Space, gap.len());
    assert(all.skip(gap.len() as int) =~= word);
    assert forall|i: int| 0 <= i < word.len() implies CharClass::Word.has(#[trigger] word[i]) by {
        assert(!is_space(word[i]));
    }
    lemma_leading_is(word, CharClass::Word, word.len());
    assert(word.take(word.len() as int) =~= word);
    let none = word.skip(word.len() as int);
    assert(none =~= seq![]);
    assert(skip_front(none, CharClass::Space) =~= seq![]);
    assert(words(none) =~= seq![]);
    assert(words(all) =~= seq![word]);
}

/// What stands before and behind the first separator, from the two parts.
pub proof fn lemma_split_once(a: Seq<char>, sep: char, b: Seq<char>)
    requires
        !a.contains(sep),
    ensures
        split_once(a + seq![sep] + b, sep) == Some((a, b)),
{
    let all = a + seq![sep] + b;
    let class = CharClass::Except(sep as u32);
    assert forall|i: int| 0 <= i < a.len() implies class.has(#[trigger] all[i]) by {
        let c: char = a[i];
        assert(a.contains(c));
        lemma_code_point(c, sep);
        assert(all[i] == c);
    }
    assert(all[a.len() as int] == sep);
    lemma_leading_is(all, class, a.len());
    assert(all.take(a.len() as int) =~= a);
    assert(all.skip(a.len() + 1int) =~= b);
}

/// The lines of a text, from its first line and the rest.
pub proof fn lemma_lines_step(line: Seq<char>, rest: Seq<char>)
    requires
        !line.contains('\n'),
        line.len() > 0 ==> line.last() != '\r',
    ensures
        lines(line + seq!['\n'] + rest) == seq![line] + lines(rest),
{
    let all = line + seq!['\n'] + rest;
    let class = CharClass::Except('\n' as u32);
    assert forall|i: int| 0 <= i < line.len() implies class.has(#[trigger] all[i]) by {
        let c: char = line[i];
        assert(line.contains(c));
        lemma_code_point(c, '\n');
        assert(all[i] == c);
    }
    assert(all[line.len() as int] == '\n');
    lemma_leading_is(all, class, line.len());
    assert(all.take(line.len() as int) =~= line);
    assert(all.skip(line.len() + 1int) =~= rest);
}

/// The parts of a text, from its first part and the rest.
pub proof fn lemma_split_step(a: Seq<char>, sep: char, b: Seq<char>)
    requires
        !a.contains(sep),
    ensures
        split(a + seq![sep] + b, sep) == seq![a] + split(b, sep),
        split(a, sep) == seq![a],
{
    lemma_split_once(a, sep, b);
    let class = CharClass::Except(sep as u32);
    assert forall|i: int| 0 <= i < a.len() implies class.has(#[trigger] a[i]) by {
        let c: char = a[i];
        assert(a.contains(c));
        lemma_code_point(c, sep);
    }
    lemma_leading_is(a, class, a.len());
}

/// Lines one behind the other, each with a line feed behind it.
pub open spec fn unlines(ls: Seq<Seq<char>>) -> Seq<char>
    decreases ls.len(),
{
    if ls.len() == 0 {
        seq![]
    } else {
        unlines(ls.drop_last()) + ls.last() + seq!['\n']
    }
}

/// Whether `s` can stand as a line of its own.
pub open spec fn is_line(s: Seq<char>) -> bool {
    !s.contains('\n') && (s.len() > 0 ==> s.last() != '\r')
}

/// Lines one behind the other begin with the first.
proof fn lemma_unlines_front(ls: Seq<Seq<char>>)
    requires
        ls.len() > 0,
    ensures
        unlines(ls) == ls[0] + seq!['\n'] + unlines(ls.drop_first()),
    decreases ls.len(),
{
    if ls.len() == 1 {
        assert(ls.drop_last() =~= seq![]);
        assert(ls.drop_first() =~= seq![]);
        assert(unlines(ls) =~= ls[0] + seq!['\n'] + unlines(ls.drop_first()));
    } else {
        lemma_unlines_front(ls.drop_last());
        assert(ls.drop_last().drop_first() =~= ls.drop_first().drop_last());
        assert(unlines(ls) =~= ls[0] + seq!['\n'] + (unlines(ls.drop_first().drop_last())
            + ls.last() + seq!['\n']));
    }
}

/// Lines that were put one behind the other are found again.
pub proof fn law_lines_are_found(ls: Seq<Seq<char>>)
    requires
        forall|i: int| 0 <= i < ls.len() ==> is_line(#[trigger] ls[i]),
    ensures
        lines(unlines(ls)) == ls,
    decreases ls.len(),
{
    if ls.len() == 0 {
        assert(lines(unlines(ls)) =~= ls);
    } else {
        let rest = ls.drop_first();
        assert forall|i: int| 0 <= i < rest.len() implies is_line(#[trigger] rest[i]) by {
            assert(rest[i] == ls[i + 1]);
        }
        law_lines_are_found(rest);
        lemma_unlines_front(ls);
        assert(is_line(ls[0]));
        lemma_lines_step(ls[0], unlines(rest));
        assert(seq![ls[0]] + rest =~= ls);
    }
}

/// A number in decimal holds digits alone.
pub proof fn lemma_decimal_has_no(n: nat, c: char)
    requires
        !is_digit(c),
    ensures
        !decimal(n).contains(c),
{
    lemma_decimal(n);
    if decimal(n).contains(c) {
        let i = choose|i: int| 0 <= i < decimal(n).len() && decimal(n)[i] == c;
        assert(is_digit(decimal(n)[i]));
    }
}

/// Whether `s` can stand as a word of its own.
pub open spec fn is_word(s: Seq<char>) -> bool {
    s.len() > 0 && forall|i: int| 0 <= i < s.len() ==> !is_space(#[trigger] s[i])
}

/// Words one behind the other, each with its gap behind it.
pub open spec fn spaced(ws: Seq<Seq<char>>, gaps: Seq<Seq<char>>) -> Seq<char>
    decreases ws.len(),
{
    if ws.len() == 0 {
        seq![]
    } else {
        ws[0] + gaps[0] + spaced(ws.drop_first(), gaps.drop_first())
    }
}

/// Whether `gaps` hold words apart: each is white space, and only the last may be empty.
pub open spec fn are_gaps(gaps: Seq<Seq<char>>) -> bool {
    forall|i: int|
        0 <= i < gaps.len() ==> is_blank(#[trigger] gaps[i]) && (i < gaps.len() - 1
            ==> gaps[i].len() > 0)
}

/// White space in front of a text does not change its words.
proof fn lemma_words_behind(lead: Seq<char>, s: Seq<char>)
    requires
        is_blank(lead),
        s.len() > 0 ==> !is_space(s[0]),
    ensures
        words(lead + s) == words(s),
{
    let all = lead + s;
    assert forall|i: int| 0 <= i < lead.len() implies CharClass::Space.has(#[trigger] all[i]) by {
        assert(all[i] == lead[i]);
    }
    if s.len() > 0 {
        assert(all[lead.len() as int] == s[0]);
    }
    lemma_leading_is(all, CharClass::Space, lead.len());
    lemma_leading_is(s, CharClass::Space, 0);
    assert(all.skip(lead.len() as int) =~= s);
    assert(s.skip(0) =~= s);
    if s.len() == 0 {
        assert(words(all) =~= words(s));
    }
}

/// Words that were put one behind the other, with any white space between, before and behind
/// them, are found again.
pub proof fn law_words_are_found(lead: Seq<char>, ws: Seq<Seq<char>>, gaps: Seq<Seq<char>>)
    requires
        is_blank(lead),
        gaps.len() == ws.len(),
        are_gaps(gaps),
        forall|i: int| 0 <= i < ws.len() ==> is_word(#[trigger] ws[i]),
    ensures
        words(lead + spaced(ws, gaps)) == ws,
    decreases ws.len(),
{
    let s = spaced(ws, gaps);
    if ws.len() == 0 {
        lemma_words_behind(lead, s);
        lemma_leading_is(s, CharClass::Space, 0);
        assert(s.skip(0) =~= s);
        assert(words(s) =~= ws);
    } else {
        let (word, gap) = (ws[0], gaps[0]);
        assert(is_word(word) && is_blank(gap));
        let (more, wide) = (ws.drop_first(), gaps.drop_first());
        let rest = spaced(more, wide);
        assert forall|i: int| 0 <= i < more.len() implies is_word(#[trigger] more[i]) by {
            assert(more[i] == ws[i + 1]);
        }
        assert forall|i: int| 0 <= i < wide.len() implies is_blank(#[trigger] wide[i]) && (i
            < wide.len() - 1 ==> wide[i].len() > 0) by {
            assert(wide[i] == gaps[i + 1]);
        }
        assert(s[0] == word[0]);
        lemma_words_behind(lead, s);
        law_words_are_found(gap, more, wide);
        if gap.len() > 0 {
            lemma_words_step(word, gap, rest);
        } else {
            assert(more =~= seq![]);
            assert(s =~= word);
            assert(seq![] + word =~= word);
            lemma_last_word(seq![], word);
        }
        assert(seq![word] + more =~= ws);
    }
}

/// Words one behind the other begin with the first, and end with the last where nothing follows it.
pub proof fn lemma_spaced_ends(ws: Seq<Seq<char>>, gaps: Seq<Seq<char>>)
    requires
        ws.len() > 0,
        gaps.len() == ws.len(),
        gaps.last().len() == 0,
        forall|i: int| 0 <= i < ws.len() ==> is_word(#[trigger] ws[i]),
    ensures
        spaced(ws, gaps).len() > 0,
        !is_space(spaced(ws, gaps)[0]),
        !is_space(spaced(ws, gaps).last()),
    decreases ws.len(),
{
    let s = spaced(ws, gaps);
    let (more, wide) = (ws.drop_first(), gaps.drop_first());
    let word = ws[0];
    assert(is_word(word));
    assert(s[0] == word[0]);
    if ws.len() == 1 {
        assert(spaced(more, wide) =~= seq![]);
        assert(gaps[0] == gaps.last());
        assert(s =~= word);
        assert(s.last() == word[word.len() - 1]);
    } else {
        assert forall|i: int| 0 <= i < more.len() implies is_word(#[trigger] more[i]) by {
            assert(more[i] == ws[i + 1]);
        }
        lemma_spaced_ends(more, wide);
        assert(s.last() == spaced(more, wide).last());
    }
}

/// Words with one space between them are found again.
pub proof fn law_words_one_space_apart(ws: Seq<Seq<char>>)
    requires
        forall|i: int| 0 <= i < ws.len() ==> is_word(#[trigger] ws[i]),
    ensures
        words(joined(ws, seq![' '])) == ws,
{
    let gaps = Seq::new(
        ws.len(),
        |i: int|
            if i < ws.len() - 1 {
                seq![' ']
            } else {
                seq![]
            },
    );
    lemma_joined_is_spaced(ws, gaps);
    law_words_are_found(seq![], ws, gaps);
    assert(seq![] + spaced(ws, gaps) =~= spaced(ws, gaps));
}

/// A separator between words is a gap behind each but the last.
proof fn lemma_joined_is_spaced(ws: Seq<Seq<char>>, gaps: Seq<Seq<char>>)
    requires
        gaps.len() == ws.len(),
        forall|i: int|
            0 <= i < gaps.len() ==> #[trigger] gaps[i] == if i < gaps.len() - 1 {
                seq![' ']
            } else {
                Seq::<char>::empty()
            },
    ensures
        spaced(ws, gaps) == joined(ws, seq![' ']),
    decreases ws.len(),
{
    if ws.len() > 0 {
        let (more, wide) = (ws.drop_first(), gaps.drop_first());
        assert forall|i: int| 0 <= i < wide.len() implies #[trigger] wide[i] == if i < wide.len()
            - 1 {
            seq![' ']
        } else {
            Seq::<char>::empty()
        } by {
            assert(wide[i] == gaps[i + 1]);
        }
        lemma_joined_is_spaced(more, wide);
        if ws.len() == 1 {
            assert(gaps[0] =~= seq![]);
            assert(spaced(more, wide) =~= seq![]);
            assert(spaced(ws, gaps) =~= ws[0]);
        } else {
            assert(gaps[0] == seq![' ']);
            lemma_joined_front(ws, seq![' ']);
        }
    }
}

/// One part more, behind the others.
pub proof fn lemma_joined_push(parts: Seq<Seq<char>>, sep: Seq<char>, part: Seq<char>)
    requires
        parts.len() > 0,
    ensures
        joined(parts.push(part), sep) == joined(parts, sep) + sep + part,
{
    assert(parts.push(part).drop_last() =~= parts);
}

/// Two lists of parts, one behind the other.
pub proof fn lemma_joined_lists(a: Seq<Seq<char>>, b: Seq<Seq<char>>, sep: Seq<char>)
    requires
        a.len() > 0,
        b.len() > 0,
    ensures
        joined(a + b, sep) == joined(a, sep) + sep + joined(b, sep),
    decreases b.len(),
{
    if b.len() == 1 {
        assert(a + b =~= a.push(b[0]));
        lemma_joined_push(a, sep, b[0]);
    } else {
        lemma_joined_lists(a, b.drop_last(), sep);
        assert((a + b).drop_last() =~= a + b.drop_last());
        assert(joined(a + b, sep) =~= joined(a, sep) + sep + (joined(b.drop_last(), sep) + sep
            + b.last()));
    }
}

/// Whether a number that reads as `n` stands right behind `flag` among the arguments.
pub open spec fn option_number(args: Seq<Seq<char>>, flag: Seq<char>, n: u32) -> bool {
    exists|i: int|
        0 <= i < args.len() - 1 && #[trigger] args[i] == flag && number(args[i + 1]) == Some(n)
}

/// A number in decimal is a word.
pub proof fn lemma_decimal_is_word(n: nat)
    ensures
        is_word(decimal(n)),
{
    lemma_decimal(n);
    assert forall|i: int| 0 <= i < decimal(n).len() implies !is_space(#[trigger] decimal(n)[i]) by {
        assert(is_digit(decimal(n)[i]));
    }
}

/// Parts that were put one behind the other with a separator between them, which none of them
/// holds, are found again.
pub proof fn law_joined_parts_are_found(parts: Seq<Seq<char>>, sep: char)
    requires
        parts.len() > 0,
        forall|i: int| 0 <= i < parts.len() ==> !(#[trigger] parts[i]).contains(sep),
    ensures
        split(joined(parts, seq![sep]), sep) == parts,
    decreases parts.len(),
{
    let rest = parts.drop_first();
    assert(!parts[0].contains(sep));
    if parts.len() == 1 {
        lemma_split_step(parts[0], sep, seq![]);
        assert(seq![parts[0]] =~= parts);
    } else {
        assert forall|i: int| 0 <= i < rest.len() implies !(#[trigger] rest[i]).contains(sep) by {
            assert(rest[i] == parts[i + 1]);
        }
        law_joined_parts_are_found(rest, sep);
        lemma_joined_front(parts, seq![sep]);
        lemma_split_step(parts[0], sep, joined(rest, seq![sep]));
        assert(seq![parts[0]] + rest =~= parts);
    }
}

/// Parts one behind the other begin with the first.
proof fn lemma_joined_front(parts: Seq<Seq<char>>, sep: Seq<char>)
    requires
        parts.len() > 1,
    ensures
        joined(parts, sep) == parts[0] + sep + joined(parts.drop_first(), sep),
    decreases parts.len(),
{
    let (head, rest) = (parts.drop_last(), parts.drop_first());
    if parts.len() == 2 {
        assert(joined(head, sep) == parts[0]);
        assert(joined(rest, sep) == parts[1]);
    } else {
        lemma_joined_front(head, sep);
        assert(head.drop_first() =~= rest.drop_last());
        assert(joined(parts, sep) =~= parts[0] + sep + (joined(rest.drop_last(), sep) + sep
            + parts.last()));
    }
}

/// A text occurs in another where that is made of it and of what stands before and behind it, and
/// nowhere else.
pub proof fn law_occurs_where_it_stands(s: Seq<char>, part: Seq<char>)
    ensures
        forall|a: Seq<char>, b: Seq<char>| s == #[trigger] (a + part + b) ==> occurs(s, part),
        occurs(s, part) ==> exists|a: Seq<char>, b: Seq<char>| s == #[trigger] (a + part + b),
{
    assert forall|a: Seq<char>, b: Seq<char>| s == #[trigger] (a + part + b) implies occurs(
        s,
        part,
    ) by {
        let i = a.len() as int;
        assert(s.subrange(i, i + part.len()) =~= part);
        assert(stands_at(s, part, i));
    }
    if occurs(s, part) {
        let i = choose|i: int| stands_at(s, part, i);
        let (a, b) = (s.take(i), s.skip(i + part.len()));
        assert(s =~= a + s.subrange(i, i + part.len()) + b);
    }
}

/// Each digit behind a number makes it ten times as large and adds its own value; leading zeros
/// and one plus sign in front change nothing; what a `u32` does not hold, and what holds anything
/// but digits, is no number.
pub proof fn law_number_grows_by_digits(s: Seq<char>, c: char)
    requires
        s.len() > 0,
        forall|i: int| 0 <= i < s.len() ==> is_digit(#[trigger] s[i]),
    ensures
        s.len() == 1 ==> number(s) == Some((s[0] as u32 - '0' as u32) as u32),
        number(s.push(c)) == match number(s) {
            Some(n) if is_digit(c) && 10 * n + (c as u32 - '0' as u32) <= u32::MAX => Some(
                (10 * n + (c as u32 - '0' as u32)) as u32,
            ),
            _ => None,
        },
        number(seq!['+'] + s) == number(s),
        number(seq!['0'] + s) == number(s),
        number(seq!['+', '+'] + s) is None,
        number(seq!['-'] + s) is None,
        number(seq![]) is None,
        number(seq!['+']) is None,
    decreases s.len(),
{
    assert(is_digit(s[0]));
    assert(s[0] != '+');
    assert(without_plus(s) == s);
    let t = s.push(c);
    assert(t[0] == s[0]);
    assert(t.drop_last() =~= s);
    assert(t[s.len() as int] == c);
    if is_digit(c) {
        assert forall|i: int| 0 <= i < t.len() implies is_digit(#[trigger] t[i]) by {
            if i < s.len() {
                assert(t[i] == s[i]);
            }
        }
    }
    if s.len() == 1 {
        assert(s.drop_last() =~= seq![]);
        assert(digits_value(s.drop_last()) == 0);
    }
    assert((seq!['+'] + s).skip(1) =~= s);
    let z = seq!['0'] + s;
    assert(z[0] == '0');
    assert forall|i: int| 0 <= i < z.len() implies is_digit(#[trigger] z[i]) by {
        if i > 0 {
            assert(z[i] == s[i - 1]);
        }
    }
    lemma_leading_zero(s);
    let p = seq!['+', '+'] + s;
    assert(p[0] == '+');
    assert(p.skip(1)[0] == '+');
    assert(!is_digit(p.skip(1)[0]));
    let m = seq!['-'] + s;
    assert(m[0] == '-');
    assert(!is_digit(m[0]));
    let e: Seq<char> = seq!['+'];
    assert(!is_digit(e[0]));
}

/// A zero in front does not change what digits write.
proof fn lemma_leading_zero(s: Seq<char>)
    ensures
        digits_value(seq!['0'] + s) == digits_value(s),
    decreases s.len(),
{
    let z = seq!['0'] + s;
    if s.len() == 0 {
        assert(z.drop_last() =~= s);
    } else {
        assert(z.drop_last() =~= seq!['0'] + s.drop_last());
        lemma_leading_zero(s.drop_last());
    }
}

/// The number that hexadecimal digits write.
pub open spec fn hex_value(s: Seq<char>) -> int
    decreases s.len(),
{
    if s.len() == 0 {
        0
    } else {
        16 * hex_value(s.drop_last()) + if is_digit(s.last()) {
            s.last() as u32 - '0' as u32
        } else {
            s.last() as u32 - 'a' as u32 + 10
        }
    }
}

/// A number in hexadecimal has the digits that were asked for, each of them one of the sixteen in
/// lower case, and is read back where so many digits can write it.
pub proof fn law_hex_is_read_back(n: nat, width: nat)
    requires
        n < vstd::arithmetic::power::pow(16, width),
    ensures
        hex(n, width).len() == width,
        forall|i: int|
            0 <= i < width ==> is_digit(#[trigger] hex(n, width)[i]) || 'a' as u32 <= hex(
                n,
                width,
            )[i] as u32 <= 'f' as u32,
        hex_value(hex(n, width)) == n,
    decreases width,
{
    reveal(vstd::arithmetic::power::pow);
    if width > 0 {
        let m = (width - 1) as nat;
        let p = vstd::arithmetic::power::pow(16, m);
        assert(n / 16 < p);
        law_hex_is_read_back(n / 16, m);
        let h = hex(n, width);
        assert(h.drop_last() =~= hex(n / 16, m));
        assert(h.last() == hex_digit(n % 16));
        assert forall|i: int| 0 <= i < width implies is_digit(#[trigger] h[i]) || 'a' as u32
            <= h[i] as u32 <= 'f' as u32 by {
            if i < m {
                assert(h[i] == hex(n / 16, m)[i]);
            }
        }
    }
}

/// White space is what Unicode counts as such: the controls from tab to carriage return, the next
/// line, the separators of lines and paragraphs, and the spaces of every width.
pub proof fn law_white_space_is_that_of_unicode(c: char)
    ensures
        is_space(c) <==> seq![
            '\u{9}', '\u{a}', '\u{b}', '\u{c}', '\u{d}', '\u{20}', '\u{85}', '\u{a0}', '\u{1680}',
            '\u{2000}', '\u{2001}', '\u{2002}', '\u{2003}', '\u{2004}', '\u{2005}', '\u{2006}',
            '\u{2007}', '\u{2008}', '\u{2009}', '\u{200a}', '\u{2028}', '\u{2029}', '\u{202f}',
            '\u{205f}', '\u{3000}',
        ].contains(c),
{
    let all = seq![
        '\u{9}', '\u{a}', '\u{b}', '\u{c}', '\u{d}', '\u{20}', '\u{85}', '\u{a0}', '\u{1680}',
        '\u{2000}', '\u{2001}', '\u{2002}', '\u{2003}', '\u{2004}', '\u{2005}', '\u{2006}',
        '\u{2007}', '\u{2008}', '\u{2009}', '\u{200a}', '\u{2028}', '\u{2029}', '\u{202f}',
        '\u{205f}', '\u{3000}',
    ];
    if is_space(c) {
        let n = c as u32;
        let i: int = if n <= 0xd {
            n - 9
        } else if n == 0x20 {
            5
        } else if n == 0x85 {
            6
        } else if n == 0xa0 {
            7
        } else if n == 0x1680 {
            8
        } else if n <= 0x200a {
            n - 0x2000 + 9
        } else if n == 0x2028 {
            20
        } else if n == 0x2029 {
            21
        } else if n == 0x202f {
            22
        } else if n == 0x205f {
            23
        } else {
            24
        };
        assert(all[i] == c);
    }
}

/// A number is written without needless digits: it begins with 0 only where it is 0.
pub proof fn law_decimal_has_no_leading_zero(n: nat)
    ensures
        n > 0 ==> decimal(n)[0] != '0',
        n < 10 ==> decimal(n).len() == 1,
        n >= 10 ==> decimal(n).len() == decimal(n / 10).len() + 1,
    decreases n,
{
    if n >= 10 {
        law_decimal_has_no_leading_zero(n / 10);
        lemma_decimal(n / 10);
        assert(decimal(n)[0] == decimal(n / 10)[0]);
    }
}

/// A text is cut at the first separator: that stands between the two parts, and not in the first;
/// and a text without one is not cut.
pub proof fn law_text_is_cut_at_the_first_separator(s: Seq<char>, sep: char)
    ensures
        match split_once(s, sep) {
            Some((a, b)) => s == a + seq![sep] + b && !a.contains(sep),
            None => !s.contains(sep),
        },
{
    let class = CharClass::Except(sep as u32);
    let n = leading(s, class) as int;
    lemma_leading_bound(s, class);
    assert forall|i: int| 0 <= i < n implies #[trigger] s[i] != sep by {
        assert(class.has(s[i]));
        lemma_code_point(s[i], sep);
    }
    if n < s.len() {
        lemma_code_point(s[n], sep);
        assert(s =~= s.take(n) + seq![sep] + s.skip(n + 1));
    }
}

/// Each of the 26 capital letters has the small letter at the same place of the alphabet, and nothing
/// else is changed.
pub proof fn law_capital_letters_become_small(c: char)
    ensures
        'A' as u32 <= c as u32 <= 'Z' as u32 ==> 'a' as u32 <= ascii_lower(c) as u32 <= 'z' as u32
            && ascii_lower(c) as u32 - 'a' as u32 == c as u32 - 'A' as u32,
        !('A' as u32 <= c as u32 <= 'Z' as u32) ==> ascii_lower(c) == c,
{
}

/// What a text begins with is taken off it once, and where it does not begin with that nothing is.
pub proof fn law_prefix_is_taken_off(prefix: Seq<char>, rest: Seq<char>, s: Seq<char>)
    ensures
        strip_prefix(prefix + rest, prefix) == Some(rest),
        strip_prefix(s, prefix) matches Some(r) ==> s == prefix + r,
        strip_prefix(s, prefix) is None ==> s.len() < prefix.len() || exists|i: int|
            0 <= i < prefix.len() && s[i] != #[trigger] prefix[i],
{
    let all = prefix + rest;
    assert(all.subrange(0, prefix.len() as int) =~= prefix);
    assert(all.skip(prefix.len() as int) =~= rest);
    if prefix.is_prefix_of(s) {
        assert(prefix + s.skip(prefix.len() as int) =~= s);
    } else if s.len() >= prefix.len() && forall|i: int|
        0 <= i < prefix.len() ==> s[i] == #[trigger] prefix[i] {
        assert(s.subrange(0, prefix.len() as int) =~= prefix);
    }
}

/// A text without a line feed is one line, carriage returns and all; and in front of a line feed
/// just one of those belongs to the ending.
pub proof fn law_other_carriage_returns_stay(line: Seq<char>, rest: Seq<char>)
    requires
        !line.contains('\n'),
    ensures
        line.len() > 0 ==> lines(line) == seq![line],
        lines(line + seq!['\r', '\n'] + rest) == seq![line] + lines(rest),
{
    let class = CharClass::Except('\n' as u32);
    assert forall|i: int| 0 <= i < line.len() implies class.has(#[trigger] line[i]) by {
        let c: char = line[i];
        assert(line.contains(c));
        lemma_code_point(c, '\n');
    }
    lemma_leading_is(line, class, line.len());
    let long = line.push('\r');
    let all = line + seq!['\r', '\n'] + rest;
    assert forall|i: int| 0 <= i < long.len() implies class.has(#[trigger] all[i]) by {
        if i < line.len() {
            assert(all[i] == line[i]);
        } else {
            assert(all[i] == '\r');
        }
    }
    assert(all[long.len() as int] == '\n');
    lemma_leading_is(all, class, long.len());
    assert(all.take(long.len() as int) =~= long);
    assert(long.drop_last() =~= line);
    assert(all.skip(long.len() + 1int) =~= rest);
}

/// A carriage return in front of a line feed belongs to the ending of the line, and the last line
/// needs no ending.
pub proof fn law_line_endings(line: Seq<char>, rest: Seq<char>)
    requires
        is_line(line),
    ensures
        lines(line + seq!['\n'] + rest) == seq![line] + lines(rest),
        lines(line + seq!['\r', '\n'] + rest) == seq![line] + lines(rest),
        line.len() > 0 ==> lines(line) == seq![line],
        lines(seq![]) == Seq::<Seq<char>>::empty(),
{
    lemma_lines_step(line, rest);
    let class = CharClass::Except('\n' as u32);
    assert forall|i: int| 0 <= i < line.len() implies class.has(#[trigger] line[i]) by {
        let c: char = line[i];
        assert(line.contains(c));
        lemma_code_point(c, '\n');
    }
    lemma_leading_is(line, class, line.len());
    let long = line.push('\r');
    let all = line + seq!['\r', '\n'] + rest;
    assert forall|i: int| 0 <= i < long.len() implies class.has(#[trigger] all[i]) by {
        if i < line.len() {
            assert(all[i] == line[i]);
        } else {
            assert(all[i] == '\r');
        }
    }
    assert(all[long.len() as int] == '\n');
    lemma_leading_is(all, class, long.len());
    assert(all.take(long.len() as int) =~= long);
    assert(long.drop_last() =~= line);
    assert(all.skip(long.len() + 1int) =~= rest);
}

/// Whether `c` is white space.
pub fn is_whitespace(c: char) -> (r: bool)
    ensures
        r == is_space(c),
{
    let n: u32 = c as u32;
    (0x9 <= n && n <= 0xd) || n == 0x20 || n == 0x85 || n == 0xa0 || n == 0x1680 || (0x2000 <= n
        && n <= 0x200a) || n == 0x2028 || n == 0x2029 || n == 0x202f || n == 0x205f || n == 0x3000
}

/// The characters of `s`.
pub fn chars(s: &str) -> (r: Vec<char>)
    ensures
        r@ == s@,
{
    let mut out: Vec<char> = Vec::new();
    for c in it: s.chars()
        invariant
            it.seq() == s@,
            out@ == s@.take(it.index() as int),
    {
        out.push(c);
    }
    out
}

impl CharClass {
    /// Whether `c` belongs to the class.
    pub fn contains(&self, c: char) -> (r: bool)
        ensures
            r == self.has(c),
    {
        match self {
            CharClass::Space => is_whitespace(c),
            CharClass::Word => !is_whitespace(c),
            CharClass::Only(x) => c as u32 == *x,
            CharClass::Except(x) => c as u32 != *x,
        }
    }
}

/// The length of the run of `class` at the front of `s`.
pub fn front_run(s: &str, class: &CharClass) -> (r: usize)
    ensures
        r == leading(s@, *class),
        r <= s@.len(),
{
    let v = chars(s);
    let mut n: usize = 0;
    while n < v.len() && class.contains(v[n])
        invariant
            v@ == s@,
            n <= v@.len(),
            forall|i: int| 0 <= i < n ==> class.has(#[trigger] v@[i]),
        decreases v@.len() - n,
    {
        n = n + 1;
    }
    proof {
        lemma_leading_is(s@, *class, n as nat);
    }
    n
}

/// `s` without the characters of `class` at its front.
pub fn trim_front<'a>(s: &'a str, class: &CharClass) -> (r: &'a str)
    ensures
        r@ == skip_front(s@, *class),
{
    let n: usize = front_run(s, class);
    let len: usize = s.unicode_len();
    s.substring_char(n, len)
}

/// `s` without the characters of `class` at its end.
pub fn trim_back<'a>(s: &'a str, class: &CharClass) -> (r: &'a str)
    ensures
        r@ == skip_back(s@, *class),
{
    let v = chars(s);
    let mut n: usize = v.len();
    while n > 0 && class.contains(v[n - 1])
        invariant
            v@ == s@,
            n <= v@.len(),
            forall|i: int| n <= i < v@.len() ==> class.has(#[trigger] v@[i]),
        decreases n,
    {
        n = n - 1;
    }
    proof {
        lemma_trailing_is(s@, *class, (s@.len() - n) as nat);
    }
    s.substring_char(0, n)
}

/// `s` without white space at either end.
pub fn trim<'a>(s: &'a str) -> (r: &'a str)
    ensures
        r@ == trimmed(s@),
{
    trim_back(trim_front(s, &CharClass::Space), &CharClass::Space)
}

/// The words of `s`, in order.
pub fn split_whitespace<'a>(s: &'a str) -> (r: Vec<&'a str>)
    ensures
        r@.len() == words(s@).len(),
        forall|i: int| 0 <= i < r@.len() ==> (#[trigger] r@[i])@ == words(s@)[i],
{
    let mut out: Vec<&'a str> = Vec::new();
    let mut rest: &'a str = s;
    let mut left: usize = s.unicode_len();
    let ghost mut done: Seq<Seq<char>> = seq![];
    loop
        invariant
            left == rest@.len(),
            done + words(rest@) =~= words(s@),
            out@.len() == done.len(),
            forall|i: int| 0 <= i < out@.len() ==> (#[trigger] out@[i])@ == done[i],
        ensures
            done =~= words(s@),
            out@.len() == done.len(),
            forall|i: int| 0 <= i < out@.len() ==> (#[trigger] out@[i])@ == done[i],
        decreases left,
    {
        let t = trim_front(rest, &CharClass::Space);
        proof {
            lemma_leading_bound(rest@, CharClass::Space);
            lemma_leading_bound(t@, CharClass::Word);
        }
        let n: usize = front_run(t, &CharClass::Word);
        if n == 0 {
            break;
        }
        let len: usize = t.unicode_len();
        let word = t.substring_char(0, n);
        let ghost before = done;
        let ghost tail = words(t@.skip(n as int));
        proof {
            assert(words(rest@) == seq![t@.take(n as int)] + tail);
            done = done.push(word@);
            assert(done + tail =~= before + (seq![word@] + tail));
        }
        out.push(word);
        rest = t.substring_char(n, len);
        left = len - n;
    }
    out
}

/// The lines of `s`, in order.
pub fn split_lines<'a>(s: &'a str) -> (r: Vec<&'a str>)
    ensures
        r@.len() == lines(s@).len(),
        forall|i: int| 0 <= i < r@.len() ==> (#[trigger] r@[i])@ == lines(s@)[i],
{
    let mut out: Vec<&'a str> = Vec::new();
    let mut rest: &'a str = s;
    let mut left: usize = s.unicode_len();
    let ghost mut done: Seq<Seq<char>> = seq![];
    while left > 0
        invariant
            left == rest@.len(),
            done + lines(rest@) =~= lines(s@),
            out@.len() == done.len(),
            forall|i: int| 0 <= i < out@.len() ==> (#[trigger] out@[i])@ == done[i],
        decreases left,
    {
        let n: usize = front_run(rest, &CharClass::Except('\n' as u32));
        let ghost before = done;
        if n == left {
            proof {
                done = done.push(rest@);
                assert(lines(rest@.skip(n as int)) =~= seq![]);
                assert(done + seq![] =~= before + seq![rest@]);
            }
            out.push(rest);
            rest = rest.substring_char(n, left);
            left = 0;
        } else {
            let line = trim_cr(rest.substring_char(0, n));
            let ghost tail = lines(rest@.skip(n + 1int));
            proof {
                done = done.push(line@);
                assert(lines(rest@) == seq![line@] + tail);
                assert(done + tail =~= before + (seq![line@] + tail));
            }
            out.push(line);
            rest = rest.substring_char(n + 1, left);
            left = left - n - 1;
        }
    }
    out
}

/// `s` without a carriage return at its end.
fn trim_cr<'a>(s: &'a str) -> (r: &'a str)
    ensures
        r@ == without_cr(s@),
{
    let len: usize = s.unicode_len();
    if len > 0 && s.get_char(len - 1) == '\r' {
        s.substring_char(0, len - 1)
    } else {
        s
    }
}

/// The parts of `s` between the occurrences of `sep`, in order.
pub fn split_char<'a>(s: &'a str, sep: char) -> (r: Vec<&'a str>)
    ensures
        r@.len() == split(s@, sep).len(),
        forall|i: int| 0 <= i < r@.len() ==> (#[trigger] r@[i])@ == split(s@, sep)[i],
{
    let mut out: Vec<&'a str> = Vec::new();
    let mut rest: &'a str = s;
    let mut left: usize = s.unicode_len();
    let mut n: usize = front_run(rest, &CharClass::Except(sep as u32));
    let ghost mut done: Seq<Seq<char>> = seq![];
    while n < left
        invariant
            left == rest@.len(),
            n == leading(rest@, CharClass::Except(sep as u32)),
            done + split(rest@, sep) =~= split(s@, sep),
            out@.len() == done.len(),
            forall|i: int| 0 <= i < out@.len() ==> (#[trigger] out@[i])@ == done[i],
        decreases left,
    {
        let part = rest.substring_char(0, n);
        let ghost before = done;
        let ghost tail = split(rest@.skip(n + 1int), sep);
        proof {
            done = done.push(part@);
            assert(split(rest@, sep) == seq![part@] + tail);
            assert(done + tail =~= before + (seq![part@] + tail));
        }
        out.push(part);
        rest = rest.substring_char(n + 1, left);
        left = left - n - 1;
        n = front_run(rest, &CharClass::Except(sep as u32));
    }
    proof {
        assert(split(rest@, sep) =~= seq![rest@]);
    }
    out.push(rest);
    out
}

/// What stands before and behind the first `sep` of `s`.
pub fn cut_at<'a>(s: &'a str, sep: char) -> (r: Option<(&'a str, &'a str)>)
    ensures
        match r {
            Some((a, b)) => split_once(s@, sep) == Some((a@, b@)),
            None => split_once(s@, sep) is None,
        },
{
    let n: usize = front_run(s, &CharClass::Except(sep as u32));
    let len: usize = s.unicode_len();
    if n < len {
        Some((s.substring_char(0, n), s.substring_char(n + 1, len)))
    } else {
        None
    }
}

/// Whether `part` stands at index `at` of `s`.
fn matches_at(s: &Vec<char>, part: &Vec<char>, at: usize) -> (r: bool)
    requires
        at + part@.len() <= s@.len(),
    ensures
        r == stands_at(s@, part@, at as int),
{
    let end: usize = s.len();
    let mut i: usize = 0;
    while i < part.len()
        invariant
            at + part@.len() <= s@.len(),
            end == s@.len(),
            i <= part@.len(),
            forall|j: int| 0 <= j < i ==> s@[at + j] == #[trigger] part@[j],
        decreases part@.len() - i,
    {
        if s[at + i] != part[i] {
            assert(s@.subrange(at as int, at + part@.len())[i as int] != part@[i as int]);
            return false;
        }
        i = i + 1;
    }
    assert(s@.subrange(at as int, at + part@.len()) =~= part@);
    true
}

/// What follows `prefix` in `s`, where `s` begins with it.
pub fn after_prefix<'a>(s: &'a str, prefix: &str) -> (r: Option<&'a str>)
    ensures
        match r {
            Some(rest) => strip_prefix(s@, prefix@) == Some(rest@),
            None => strip_prefix(s@, prefix@) is None,
        },
{
    let v = chars(s);
    let p = chars(prefix);
    if p.len() <= v.len() && matches_at(&v, &p, 0) {
        proof {
            assert(prefix@.is_prefix_of(s@));
        }
        Some(s.substring_char(p.len(), v.len()))
    } else {
        None
    }
}

/// Whether `part` occurs in `s`.
pub fn contains(s: &str, part: &str) -> (r: bool)
    ensures
        r == occurs(s@, part@),
{
    let v = chars(s);
    let p = chars(part);
    if p.len() > v.len() {
        return false;
    }
    let last: usize = v.len() - p.len();
    let mut at: usize = 0;
    loop
        invariant
            v@ == s@,
            p@ == part@,
            last == v@.len() - p@.len(),
            at <= last,
            forall|i: int| 0 <= i < at ==> !stands_at(s@, part@, i),
        decreases last - at,
    {
        if matches_at(&v, &p, at) {
            return true;
        }
        if at == last {
            return false;
        }
        at = at + 1;
    }
}

/// Whether the character `c` occurs in `s`.
pub fn contains_char(s: &str, c: char) -> (r: bool)
    ensures
        r == s@.contains(c),
{
    let v = chars(s);
    let mut i: usize = 0;
    while i < v.len()
        invariant
            v@ == s@,
            i <= v@.len(),
            forall|j: int| 0 <= j < i ==> v@[j] != c,
        decreases v@.len() - i,
    {
        if v[i] == c {
            return true;
        }
        i = i + 1;
    }
    false
}

/// Whether `a` and `b` hold the same characters.
pub fn same(a: &str, b: &str) -> (r: bool)
    ensures
        r == (a@ == b@),
{
    let v = chars(a);
    let w = chars(b);
    if v.len() != w.len() {
        return false;
    }
    let r = matches_at(&v, &w, 0);
    assert(a@.subrange(0, a@.len() as int) =~= a@);
    r
}

/// Whether one of `list` holds the characters of `s`.
pub fn any_same(list: &Vec<String>, s: &str) -> (r: bool)
    ensures
        r == views(list@).contains(s@),
{
    let mut i: usize = 0;
    while i < list.len()
        invariant
            i <= list@.len(),
            forall|j: int| 0 <= j < i ==> #[trigger] views(list@)[j] != s@,
        decreases list@.len() - i,
    {
        if same(list[i].as_str(), s) {
            assert(views(list@)[i as int] == s@);
            return true;
        }
        i = i + 1;
    }
    false
}

/// The number that `s` writes in decimal, where a `u32` holds it.
pub fn parse_u32(s: &str) -> (r: Option<u32>)
    ensures
        r == number(s@),
{
    let v = chars(s);
    let start: usize = if v.len() > 1 && v[0] == '+' {
        1
    } else {
        0
    };
    let ghost d = without_plus(s@);
    assert(d =~= v@.skip(start as int));
    if v.len() == 0 {
        return None;
    }
    let mut i: usize = start;
    let mut n: u64 = 0;
    let mut fits: bool = true;
    while i < v.len()
        invariant
            start <= i <= v@.len(),
            start <= 1,
            d == without_plus(s@),
            d =~= v@.skip(start as int),
            forall|j: int| 0 <= j < i - start ==> is_digit(#[trigger] d[j]),
            fits ==> n == digits_value(d.take(i - start)) && n <= u32::MAX,
            !fits ==> digits_value(d.take(i - start)) > u32::MAX,
        decreases v@.len() - i,
    {
        let c: u32 = v[i] as u32;
        assert(d[i - start] == v@[i as int]);
        if c < 48 || c > 57 {
            assert(!is_digit(d[i - start]));
            return None;
        }
        proof {
            assert(d.take(i - start + 1).drop_last() =~= d.take(i - start));
            assert(d.take(i - start + 1).last() == v@[i as int]);
        }
        if fits {
            n = 10 * n + (c - 48) as u64;
            if n > u32::MAX as u64 {
                fits = false;
            }
        }
        i = i + 1;
    }
    assert(d.take(d.len() as int) =~= d);
    if fits {
        Some(n as u32)
    } else {
        None
    }
}

/// The decimal digit for `n`, as text.
fn digit_str(n: u32) -> (r: &'static str)
    requires
        n < 10,
    ensures
        r@ == seq![digit(n as nat)],
{
    proof {
        reveal_strlit("0");
        reveal_strlit("1");
        reveal_strlit("2");
        reveal_strlit("3");
        reveal_strlit("4");
        reveal_strlit("5");
        reveal_strlit("6");
        reveal_strlit("7");
        reveal_strlit("8");
        reveal_strlit("9");
    }
    match n {
        0 => "0",
        1 => "1",
        2 => "2",
        3 => "3",
        4 => "4",
        5 => "5",
        6 => "6",
        7 => "7",
        8 => "8",
        _ => "9",
    }
}

/// The lower-case hexadecimal digit for `n`, as text.
fn hex_str(n: u32) -> (r: &'static str)
    requires
        n < 16,
    ensures
        r@ == seq![hex_digit(n as nat)],
{
    proof {
        reveal_strlit("a");
        reveal_strlit("b");
        reveal_strlit("c");
        reveal_strlit("d");
        reveal_strlit("e");
        reveal_strlit("f");
    }
    match n {
        10 => "a",
        11 => "b",
        12 => "c",
        13 => "d",
        14 => "e",
        15 => "f",
        _ => digit_str(n),
    }
}

/// `n` in decimal.
pub fn dec(n: u64) -> (r: String)
    ensures
        r@ == decimal(n as nat),
    decreases n,
{
    if n < 10 {
        digit_str(n as u32).to_string()
    } else {
        let mut s = dec(n / 10);
        s.append(digit_str((n % 10) as u32));
        assert(s@ =~= decimal(n as nat));
        s
    }
}

/// The lowest `width` hexadecimal digits of `n`.
pub fn hex_digits(n: u32, width: u32) -> (r: String)
    ensures
        r@ == hex(n as nat, width as nat),
    decreases width,
{
    if width == 0 {
        String::new()
    } else {
        let mut s = hex_digits(n / 16, width - 1);
        s.append(hex_str(n % 16));
        assert(s@ =~= hex(n as nat, width as nat));
        s
    }
}

/// The text for `b`.
pub fn truth_str(b: bool) -> (r: &'static str)
    ensures
        r@ == truth(b),
{
    if b {
        "true"
    } else {
        "false"
    }
}

/// The strings of `parts` one behind the other, with `sep` between them.
pub fn join(parts: &Vec<String>, sep: &str) -> (r: String)
    ensures
        r@ == joined(views(parts@), sep@),
{
    let mut out = String::new();
    let ghost all = views(parts@);
    let mut i: usize = 0;
    while i < parts.len()
        invariant
            all == views(parts@),
            i <= parts@.len(),
            out@ == joined(all.take(i as int), sep@),
        decreases parts@.len() - i,
    {
        proof {
            assert(all.take(i + 1).drop_last() =~= all.take(i as int));
            assert(all.take(i + 1).last() == parts@[i as int]@);
        }
        if i > 0 {
            out.append(sep);
        }
        out.append(parts[i].as_str());
        proof {
            assert(out@ =~= joined(all.take(i + 1), sep@));
        }
        i = i + 1;
    }
    assert(all.take(all.len() as int) =~= all);
    out
}

/// The text of an optional string.
pub open spec fn opt_view(s: Option<String>) -> Option<Seq<char>> {
    match s {
        Some(t) => Some(t@),
        None => None,
    }
}

/// A copy of a list of strings.
pub fn copy_list(list: &Vec<String>) -> (r: Vec<String>)
    ensures
        views(r@) == views(list@),
{
    let mut out: Vec<String> = Vec::new();
    let ghost all = views(list@);
    let mut i: usize = 0;
    assert(views(out@) =~= all.take(0));
    while i < list.len()
        invariant
            all == views(list@),
            i <= list@.len(),
            views(out@) == all.take(i as int),
        decreases list@.len() - i,
    {
        let ghost before = out@;
        out.push(list[i].clone());
        assert(views(out@) =~= views(before).push(list@[i as int]@));
        assert(all.take(i + 1) =~= all.take(i as int).push(list@[i as int]@));
        i = i + 1;
    }
    assert(all.take(all.len() as int) =~= all);
    out
}

/// Whether two lists hold the same strings.
pub fn same_list(a: &Vec<String>, b: &Vec<String>) -> (r: bool)
    ensures
        r == (views(a@) == views(b@)),
{
    if a.len() != b.len() {
        assert(views(a@).len() != views(b@).len());
        return false;
    }
    let mut i: usize = 0;
    while i < a.len()
        invariant
            a@.len() == b@.len(),
            i <= a@.len(),
            forall|j: int| 0 <= j < i ==> #[trigger] views(a@)[j] == views(b@)[j],
        decreases a@.len() - i,
    {
        if !same(a[i].as_str(), b[i].as_str()) {
            assert(views(a@)[i as int] != views(b@)[i as int]);
            return false;
        }
        i = i + 1;
    }
    assert(views(a@) =~= views(b@));
    true
}

/// The list without the strings that hold the characters of `s`.
pub open spec fn without(list: Seq<Seq<char>>, s: Seq<char>) -> Seq<Seq<char>>
    decreases list.len(),
{
    if list.len() == 0 {
        seq![]
    } else if list.last() == s {
        without(list.drop_last(), s)
    } else {
        without(list.drop_last(), s).push(list.last())
    }
}

/// The list without the strings that hold the characters of `s`.
pub fn remove_all(list: &Vec<String>, s: &str) -> (r: Vec<String>)
    ensures
        views(r@) == without(views(list@), s@),
{
    let mut out: Vec<String> = Vec::new();
    let ghost all = views(list@);
    let mut i: usize = 0;
    assert(views(out@) =~= without(all.take(0), s@));
    while i < list.len()
        invariant
            all == views(list@),
            i <= list@.len(),
            views(out@) == without(all.take(i as int), s@),
        decreases list@.len() - i,
    {
        proof {
            assert(all.take(i + 1).drop_last() =~= all.take(i as int));
            assert(all.take(i + 1).last() == list@[i as int]@);
        }
        if !same(list[i].as_str(), s) {
            let ghost before = out@;
            out.push(list[i].clone());
            assert(views(out@) =~= views(before).push(list@[i as int]@));
        }
        i = i + 1;
    }
    assert(all.take(all.len() as int) =~= all);
    out
}

} // verus!
