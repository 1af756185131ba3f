//! What the handling of text promises.

use vstd::prelude::*;
use vstd::string::*;

use crate::edit_laws::is_tidy;
use crate::naming::law_decimal_reads_back;
use crate::text::{
    after_prefix, all_digits, decimal, digits_value, duration_text, filled, hex, is_digit,
    is_white_space, join, list_entries, single_spaced, split_on, trim_end, trim_start, trimmed,
    two_digits, u16_of_text, words,
};

verus! {

/// Whether a text holds nothing but white space.
pub open spec fn is_blank(s: Seq<char>) -> bool {
    forall|i: int| 0 <= i < s.len() ==> is_white_space(#[trigger] s[i])
}

proof fn lemma_trim_start_blank(a: Seq<char>, s: Seq<char>)
    requires
        is_blank(a),
    ensures
        trim_start(a + s) == trim_start(s),
    decreases a.len(),
{
    if a.len() > 0 {
        assert(is_white_space(a[0]));
        assert((a + s).drop_first() == a.drop_first() + s);
        assert forall|i: int| 0 <= i < a.drop_first().len() implies is_white_space(
            #[trigger] a.drop_first()[i],
        ) by {
            assert(is_white_space(a[i + 1]));
        }
        lemma_trim_start_blank(a.drop_first(), s);
    } else {
        assert(a + s == s);
    }
}

proof fn lemma_trim_end_blank(s: Seq<char>, b: Seq<char>)
    requires
        is_blank(b),
    ensures
        trim_end(s + b) == trim_end(s),
    decreases b.len(),
{
    if b.len() > 0 {
        assert(is_white_space(b[b.len() - 1]));
        assert((s + b).drop_last() == s + b.drop_last());
        lemma_trim_end_blank(s, b.drop_last());
    } else {
        assert(s + b == s);
    }
}

/// Trimming takes the white space around a text away, and nothing else.
pub proof fn law_trimming_takes_white_space_away(a: Seq<char>, t: Seq<char>, b: Seq<char>)
    requires
        is_blank(a),
        is_blank(b),
        t.len() > 0 ==> is_tidy(t),
    ensures
        trimmed(a + t + b) == t,
{
    assert(a + t + b == a + (t + b));
    lemma_trim_start_blank(a, t + b);
    if t.len() > 0 {
        assert((t + b)[0] == t[0]);
        assert(trim_start(t + b) == t + b);
        lemma_trim_end_blank(t, b);
        assert(trim_end(t) == t);
    } else {
        lemma_trim_start_blank(b, Seq::empty());
        assert(b + Seq::<char>::empty() == b);
        assert(t + b == b);
        assert(trim_start(Seq::<char>::empty()) == Seq::<char>::empty());
        assert(trim_end(Seq::<char>::empty()) == Seq::<char>::empty());
        assert(t == Seq::<char>::empty());
    }
}

proof fn lemma_before_trim_start(s: Seq<char>)
    ensures
        trim_start(s).len() <= s.len(),
        trim_start(s) == s.skip(s.len() - trim_start(s).len()),
        is_blank(s.take(s.len() - trim_start(s).len())),
        trim_start(s).len() > 0 ==> !is_white_space(trim_start(s)[0]),
    decreases s.len(),
{
    if s.len() > 0 && is_white_space(s[0]) {
        let rest = s.drop_first();
        lemma_before_trim_start(rest);
        let t = trim_start(rest);
        assert(rest.skip(rest.len() - t.len()) == s.skip(s.len() - t.len()));
        let head = s.take(s.len() - t.len());
        assert forall|i: int| 0 <= i < head.len() implies is_white_space(#[trigger] head[i]) by {
            if i > 0 {
                assert(is_white_space(rest.take(rest.len() - t.len())[i - 1]));
            }
        }
    } else {
        assert(s.skip(0) == s);
    }
}

proof fn lemma_after_trim_end(s: Seq<char>)
    ensures
        trim_end(s).len() <= s.len(),
        trim_end(s) == s.take(trim_end(s).len() as int),
        is_blank(s.skip(trim_end(s).len() as int)),
        trim_end(s).len() > 0 ==> !is_white_space(trim_end(s).last()),
    decreases s.len(),
{
    if s.len() > 0 && is_white_space(s.last()) {
        let rest = s.drop_last();
        lemma_after_trim_end(rest);
        let t = trim_end(rest);
        assert(rest.take(t.len() as int) == s.take(t.len() as int));
        let tail = s.skip(t.len() as int);
        assert forall|i: int| 0 <= i < tail.len() implies is_white_space(#[trigger] tail[i]) by {
            if i < tail.len() - 1 {
                assert(is_white_space(rest.skip(t.len() as int)[i]));
            }
        }
    } else {
        assert(s.take(s.len() as int) == s);
    }
}

/// Every text is what trimming leaves of it, with white space around that. What is left neither
/// starts nor ends in white space.
pub proof fn law_trimming_leaves_the_middle(s: Seq<char>) -> (r: (Seq<char>, Seq<char>))
    ensures
        is_blank(r.0),
        is_blank(r.1),
        s == r.0 + trimmed(s) + r.1,
        trimmed(s).len() > 0 ==> is_tidy(trimmed(s)),
{
    lemma_before_trim_start(s);
    let a = trim_start(s);
    lemma_after_trim_end(a);
    let t = trimmed(s);
    let r = (s.take(s.len() - a.len()), a.skip(t.len() as int));
    assert(s == r.0 + t + r.1);
    if t.len() > 0 {
        assert(t[0] == a[0]);
    }
    r
}

/// The white space is made of the controls from tab to carriage return, of the space, the next-line
/// control and the no-break space, and of the spaces and separators beyond Latin-1, by their codes.
pub proof fn law_white_space_by_code(c: char)
    ensures
        ({
            let n = c as int;
            is_white_space(c) <==> 9 <= n <= 13 || n == 32 || n == 133 || n == 160 || n == 5760
                || 8192 <= n <= 8202 || n == 8232 || n == 8233 || n == 8239 || n == 8287 || n
                == 12288
        }),
{
}

/// White space at the end of a text adds no word to it, and what follows white space and holds
/// none is one more word.
pub proof fn law_words_stand_between_white_space(s: Seq<char>, gap: Seq<char>, w: Seq<char>)
    requires
        is_blank(gap),
        gap.len() > 0 || s.len() == 0,
        w.len() > 0,
        forall|i: int| 0 <= i < w.len() ==> !is_white_space(#[trigger] w[i]),
    ensures
        words(s + gap) == words(s),
        words(s + gap + w) == words(s).push(w),
    decreases gap.len() + w.len(),
{
    lemma_words_gap(s, gap);
    lemma_words_one(s + gap, w);
}

proof fn lemma_words_gap(s: Seq<char>, gap: Seq<char>)
    requires
        is_blank(gap),
    ensures
        words(s + gap) == words(s),
    decreases gap.len(),
{
    if gap.len() > 0 {
        assert(is_white_space(gap[gap.len() - 1]));
        assert((s + gap).drop_last() == s + gap.drop_last());
        lemma_words_gap(s, gap.drop_last());
    } else {
        assert(s + gap == s);
    }
}

proof fn lemma_words_one(t: Seq<char>, w: Seq<char>)
    requires
        t.len() > 0 ==> is_white_space(t.last()),
        w.len() > 0,
        forall|i: int| 0 <= i < w.len() ==> !is_white_space(#[trigger] w[i]),
    ensures
        words(t + w) == words(t).push(w),
    decreases w.len(),
{
    let s = t + w;
    let front = w.drop_last();
    assert(s.drop_last() == t + front);
    assert(!is_white_space(w[w.len() - 1]));
    if w.len() == 1 {
        assert(t + front == t);
        assert(seq![s.last()] == w);
    } else {
        assert forall|i: int| 0 <= i < front.len() implies !is_white_space(#[trigger] front[i]) by {
            assert(!is_white_space(w[i]));
        }
        lemma_words_one(t, front);
        assert(!is_white_space(front[front.len() - 1]));
        assert(words(s.drop_last()) == words(t).push(front));
        assert(front.push(s.last()) == w);
        assert(words(t).push(front).drop_last() == words(t));
    }
}

proof fn lemma_split_part(t: Seq<char>, sep: char)
    requires
        !t.contains(sep),
    ensures
        split_on(t, sep) == seq![t],
    decreases t.len(),
{
    if t.len() > 0 {
        let front = t.drop_last();
        assert(t[t.len() - 1] != sep);
        assert forall|i: int| 0 <= i < front.len() implies front[i] != sep by {
            assert(t[i] != sep);
        }
        lemma_split_part(front, sep);
        assert(front.push(t.last()) == t);
        assert(split_on(t, sep) == seq![t]);
    } else {
        assert(t == Seq::<char>::empty());
    }
}

proof fn lemma_split_append(s: Seq<char>, sep: char, t: Seq<char>)
    requires
        !t.contains(sep),
    ensures
        split_on(s.push(sep) + t, sep) == split_on(s, sep).push(t),
    decreases t.len(),
{
    let all = s.push(sep) + t;
    if t.len() > 0 {
        let front = t.drop_last();
        assert(t[t.len() - 1] != sep);
        assert forall|i: int| 0 <= i < front.len() implies front[i] != sep by {
            assert(t[i] != sep);
        }
        assert(all.drop_last() == s.push(sep) + front);
        lemma_split_append(s, sep, front);
        assert(front.push(t.last()) == t);
        assert(split_on(s, sep).push(front).drop_last() == split_on(s, sep));
    } else {
        assert(all == s.push(sep));
        assert(all.drop_last() == s);
        assert(t == Seq::<char>::empty());
    }
}

/// A list is read entry by entry: what stands behind the last separator is one more entry,
/// trimmed, unless it is blank.
pub proof fn law_list_is_read_entry_by_entry(s: Seq<char>, sep: char, t: Seq<char>)
    requires
        !t.contains(sep),
    ensures
        list_entries(t, sep) == (if is_blank(t) {
            Seq::empty()
        } else {
            seq![trimmed(t)]
        }),
        list_entries(s.push(sep) + t, sep) == (if is_blank(t) {
            list_entries(s, sep)
        } else {
            list_entries(s, sep).push(trimmed(t))
        }),
{
    lemma_split_part(t, sep);
    lemma_split_append(s, sep, t);
    let parts = split_on(s, sep);
    assert(parts.push(t).drop_last() == parts);
    assert(seq![t].drop_last() == Seq::<Seq<char>>::empty());
    assert(filled(Seq::<Seq<char>>::empty()) == Seq::<Seq<char>>::empty());
    let (a, b) = law_trimming_leaves_the_middle(t);
    if is_blank(t) {
        if trimmed(t).len() > 0 {
            assert(t[a.len() as int] == trimmed(t)[0]);
            assert(is_white_space(t[a.len() as int]));
        }
    } else if trimmed(t).len() == 0 {
        assert(t == a + b);
        assert forall|i: int| 0 <= i < t.len() implies is_white_space(#[trigger] t[i]) by {
            if i < a.len() {
                assert(t[i] == a[i]);
            } else {
                assert(t[i] == b[i - a.len()]);
            }
        }
    }
}

/// What follows a prefix is found behind it, and nothing is found where the text does not start
/// with it.
pub proof fn law_prefix_is_taken_off(prefix: Seq<char>, rest: Seq<char>, s: Seq<char>)
    ensures
        after_prefix(prefix + rest, prefix) == Some(rest),
        after_prefix(s, prefix) matches Some(r) ==> s == prefix + r,
{
    let all = prefix + rest;
    assert(all.take(prefix.len() as int) == prefix);
    assert(all.skip(prefix.len() as int) == rest);
    if let Some(r) = after_prefix(s, prefix) {
        assert(s == s.take(prefix.len() as int) + s.skip(prefix.len() as int));
    }
}

/// A decimal digit has the code of `0` plus its value. A numeral grows by one digit for each
/// factor of ten, starts with no zero unless it is `0`, and stands for one number only.
pub proof fn law_decimal_grows_by_digits(n: nat, d: nat, m: nat)
    requires
        d < 10,
    ensures
        n == 0 ==> decimal(d).len() == 1 && decimal(d)[0] as int == '0' as int + d,
        n > 0 ==> decimal(n * 10 + d).drop_last() == decimal(n) && decimal(n * 10 + d).last()
            as int == '0' as int + d,
        decimal(n)[0] == '0' ==> n == 0,
        decimal(n) == decimal(m) ==> n == m,
    decreases n,
{
    law_decimal_reads_back(n);
    law_decimal_reads_back(m);
    if n > 0 {
        assert((n * 10 + d) / 10 == n);
        assert((n * 10 + d) % 10 == d);
        assert(decimal(n * 10 + d).drop_last() == decimal(n));
    }
    if n >= 10 {
        law_decimal_grows_by_digits(n / 10, 0, 0);
        law_decimal_reads_back(n / 10);
        assert(decimal(n)[0] == decimal(n / 10)[0]);
    }
}

/// A port is read digit by digit: one more digit makes ten times the number, plus the digit. A
/// plus sign in front changes nothing. No digits, another character, or a number of `65536` or
/// more give nothing.
pub proof fn law_number_is_read_digit_by_digit(s: Seq<char>, c: char)
    requires
        all_digits(s),
    ensures
        u16_of_text(Seq::empty()) is None,
        u16_of_text(seq!['+']) is None,
        s.len() > 0 ==> u16_of_text(seq!['+'] + s) == u16_of_text(s),
        is_digit(c) && s.len() == 0 ==> u16_of_text(s.push(c)) == Some(
            (c as int - '0' as int) as u16,
        ),
        is_digit(c) && s.len() > 0 ==> u16_of_text(s.push(c)) == (match u16_of_text(s) {
            Some(n) if n * 10 + (c as int - '0' as int) <= 65535 => Some(
                (n * 10 + (c as int - '0' as int)) as u16,
            ),
            _ => None,
        }),
        !is_digit(c) && s.len() > 0 ==> u16_of_text(s.push(c)) is None,
        is_digit(c) <==> 0x30 <= c as int <= 0x39,
{
    let longer = s.push(c);
    assert(longer.drop_last() == s);
    assert(seq!['+'].drop_first() == Seq::<char>::empty());
    assert((seq!['+'] + s).drop_first() == s);
    if s.len() > 0 {
        assert(is_digit(s[0]));
        assert(longer[0] == s[0]);
    }
    if is_digit(c) {
        assert forall|i: int| 0 <= i < longer.len() implies is_digit(#[trigger] longer[i]) by {
            if i < s.len() {
                assert(is_digit(s[i]));
            }
        }
        assert(digits_value(longer) == digits_value(s) * 10 + (c as nat - '0' as nat) as nat);
        if s.len() == 0 {
            assert(digits_value(s) == 0);
        }
    } else {
        assert(!is_digit(longer[s.len() as int]));
    }
}

/// A hexadecimal text has the asked width, and its last digit is that of the lowest four bits.
pub proof fn law_hex_grows_by_digits(n: nat, d: nat, width: nat)
    requires
        d < 16,
    ensures
        hex(n, width).len() == width,
        hex(n * 16 + d, width + 1) == hex(n, width).push("0123456789abcdef"@[d as int]),
    decreases width,
{
    reveal_strlit("0123456789abcdef");
    assert((n * 16 + d) / 16 == n);
    assert((n * 16 + d) % 16 == d);
    if width > 0 {
        law_hex_grows_by_digits(n / 16, 0, (width - 1) as nat);
    }
}

/// Two numbers that fit in `width` hexadecimal digits have the same digits only if they are the
/// same.
pub proof fn law_hex_tells_numbers_apart(n: nat, m: nat, width: nat)
    requires
        n < vstd::arithmetic::power::pow(16, width),
        m < vstd::arithmetic::power::pow(16, width),
        hex(n, width) == hex(m, width),
    ensures
        n == m,
    decreases width,
{
    vstd::arithmetic::power::lemma_pow0(16);
    if width > 0 {
        let w = (width - 1) as nat;
        assert(vstd::arithmetic::power::pow(16, width) == 16 * vstd::arithmetic::power::pow(16, w))
            by {
            reveal(vstd::arithmetic::power::pow);
        }
        law_hex_grows_by_digits(n / 16, n % 16, w);
        law_hex_grows_by_digits(m / 16, m % 16, w);
        let a = hex(n, width);
        let b = hex(m, width);
        assert(a.drop_last() == hex(n / 16, w));
        assert(b.drop_last() == hex(m / 16, w));
        assert(a.last() == b.last());
        reveal_strlit("0123456789abcdef");
        assert(n % 16 == m % 16);
        law_hex_tells_numbers_apart(n / 16, m / 16, w);
    }
}

/// The two decimal digits of a number below a hundred.
spec fn pair(n: nat) -> Seq<char> {
    seq![('0' as int + n / 10) as char, ('0' as int + n % 10) as char]
}

/// A duration is shown in hours, minutes and seconds. Hours are left out where there are none,
/// and minutes too where there are none of both. What follows a larger unit has two digits.
pub proof fn law_duration_in_units(h: nat, m: nat, s: nat)
    requires
        m < 60,
        s < 60,
    ensures
        h > 0 ==> duration_text(h * 3600 + m * 60 + s) == decimal(h) + seq![
            'h',
            ' ',
            ('0' as int + m / 10) as char,
            ('0' as int + m % 10) as char,
            'm',
            ' ',
            ('0' as int + s / 10) as char,
            ('0' as int + s % 10) as char,
            's',
        ],
        h == 0 && m > 0 ==> duration_text(h * 3600 + m * 60 + s) == decimal(m) + seq![
            'm',
            ' ',
            ('0' as int + s / 10) as char,
            ('0' as int + s % 10) as char,
            's',
        ],
        h == 0 && m == 0 ==> duration_text(h * 3600 + m * 60 + s) == decimal(s).push('s'),
{
    let all = h * 3600 + m * 60 + s;
    assert(all / 3600 == h && (all % 3600) / 60 == m && all % 60 == s);
    reveal_strlit("h ");
    reveal_strlit("m ");
    reveal_strlit("s");
    lemma_two_digits(m);
    lemma_two_digits(s);
}

proof fn lemma_two_digits(n: nat)
    requires
        n < 100,
    ensures
        two_digits(n) == pair(n),
{
    reveal_with_fuel(decimal, 2);
    if n >= 10 {
        assert(decimal(n / 10).len() == 1);
    }
}

/// A name is brought into shape word by word: what follows white space is put behind the words
/// before it, with one space between. White space at either end goes.
pub proof fn law_single_spacing_goes_word_by_word(s: Seq<char>, gap: Seq<char>, w: Seq<char>)
    requires
        is_blank(gap),
        gap.len() > 0 || s.len() == 0,
        w.len() > 0,
        forall|i: int| 0 <= i < w.len() ==> !is_white_space(#[trigger] w[i]),
    ensures
        is_blank(s) ==> single_spaced(s).len() == 0,
        is_blank(s) ==> single_spaced(s + gap + w) == w,
        !is_blank(s) ==> single_spaced(s + gap + w) == single_spaced(s).push(' ') + w,
        single_spaced(s + gap) == single_spaced(s),
{
    law_words_stand_between_white_space(s, gap, w);
    let before = words(s);
    let all = words(s).push(w);
    let sep = seq![' '];
    lemma_words_empty(s);
    if is_blank(s) {
        assert(all.len() == 1 && all[0] == w);
        assert(join(all, sep) == w);
    } else {
        assert(all.drop_last() == before);
        assert(join(all, sep) == join(before, sep) + sep + w);
        assert(join(before, sep) + sep + w == join(before, sep).push(' ') + w);
    }
}

proof fn lemma_words_empty(s: Seq<char>)
    ensures
        words(s).len() == 0 <==> is_blank(s),
    decreases s.len(),
{
    if s.len() > 0 {
        let front = s.drop_last();
        lemma_words_empty(front);
        assert(s[s.len() - 1] == s.last());
        if is_white_space(s.last()) {
            if is_blank(front) {
                assert forall|i: int| 0 <= i < s.len() implies is_white_space(#[trigger] s[i]) by {
                    if i < front.len() {
                        assert(is_white_space(front[i]));
                    }
                }
            }
            if is_blank(s) {
                assert forall|i: int| 0 <= i < front.len() implies is_white_space(
                    #[trigger] front[i],
                ) by {
                    assert(is_white_space(s[i]));
                }
            }
        } else {
            assert(!is_blank(s)) by {
                if is_blank(s) {
                    assert(is_white_space(s[s.len() - 1]));
                }
            }
        }
    }
}

} // verus!
