//! Text building and scanning: decimal numbers, separators, words, padding.
use vstd::prelude::*;

verus! {

/// `String::push` appends the given character to the end of the string.
pub assume_specification[ String::push ](s: &mut String, c: char)
    ensures
        final(s)@ == old(s)@.push(c),
;

/// The texts that a list of strings holds.
pub open spec fn texts(v: Seq<String>) -> Seq<Seq<char>> {
    v.map_values(|s: String| s@)
}

/// The character that stands for the digit `d`.
pub open spec fn digit_char(d: nat) -> char {
    (48 + d) as char
}

/// `n` in decimal, without leading zeros.
pub open spec fn decimal(n: nat) -> Seq<char>
    decreases n,
{
    if n < 10 {
        seq![digit_char(n)]
    } else {
        decimal(n / 10).push(digit_char(n % 10))
    }
}

/// Appends `n` in decimal.
pub fn push_decimal(out: &mut String, n: u64)
    ensures
        final(out)@ == old(out)@ + decimal(n as nat),
    decreases n,
{
    if n >= 10 {
        push_decimal(out, n / 10);
    }
    let d: u8 = (n % 10) as u8;
    out.push((48u8 + d) as char);
}

/// The characters of `s` as a vector.
pub fn to_chars(s: &str) -> (r: Vec<char>)
    ensures
        r@ == s@,
{
    let mut out: Vec<char> = Vec::new();
    for c in it: s.chars()
        invariant
            out@ == it.seq().take(it.index() as int),
    {
        out.push(c);
    }
    out
}

/// `n` spaces.
pub open spec fn spaces(n: nat) -> Seq<char> {
    Seq::new(n, |i: int| ' ')
}

/// The spaces that bring a text of `len` characters to `width`.
pub open spec fn padding(len: nat, width: nat) -> Seq<char> {
    spaces(if len < width { (width - len) as nat } else { 0 })
}

/// Appends the spaces that bring a text of `len` characters to `width`.
fn push_padding(out: &mut String, len: usize, width: usize)
    ensures
        final(out)@ == old(out)@ + padding(len as nat, width as nat),
{
    let mut n: usize = len;
    let ghost start = out@;
    while n < width
        invariant
            len <= n,
            n <= width || n == len,
            out@ == start + spaces((n - len) as nat),
        decreases width - n,
    {
        out.push(' ');
        n = n + 1;
    }
}

/// Appends `s`, followed by spaces up to `width` characters.
pub fn push_left_aligned(out: &mut String, s: &str, width: usize)
    ensures
        final(out)@ == old(out)@ + s@ + padding(s@.len(), width as nat),
{
    out.append(s);
    push_padding(out, s.unicode_len(), width);
}

/// Appends `s`, preceded by spaces up to `width` characters.
pub fn push_right_aligned(out: &mut String, s: &str, width: usize)
    ensures
        final(out)@ == old(out)@ + padding(s@.len(), width as nat) + s@,
{
    push_padding(out, s.unicode_len(), width);
    out.append(s);
}

/// Why a text is not an unsigned number.
#[derive(Clone, Copy, Debug, PartialEq, Eq, Structural)]
pub enum NumberError {
    /// The text is empty.
    Empty,
    /// A character is not a digit, or a sign stands alone.
    InvalidDigit,
    /// The number exceeds the largest value allowed.
    TooLarge,
}

impl NumberError {
    /// The description of the error.
    pub open spec fn text(self) -> Seq<char> {
        match self {
            NumberError::Empty => "cannot parse integer from empty string"@,
            NumberError::InvalidDigit => "invalid digit found in string"@,
            NumberError::TooLarge => "number too large to fit in target type"@,
        }
    }

    /// The description of the error.
    pub fn description(self) -> (r: &'static str)
        ensures
            r@ == self.text(),
    {
        match self {
            NumberError::Empty => "cannot parse integer from empty string",
            NumberError::InvalidDigit => "invalid digit found in string",
            NumberError::TooLarge => "number too large to fit in target type",
        }
    }
}

/// Whether `c` is one of `0` to `9`.
pub open spec fn is_digit(c: char) -> bool {
    '0' <= c && c <= '9'
}

/// The value of the digit `c`.
pub open spec fn digit_value(c: char) -> nat {
    (c as int - 48) as nat
}

/// The number that the digits `s` denote, read from the left: the first
/// character that is no digit, or that takes the number beyond `max`, decides
/// the error.
pub open spec fn digits_number(s: Seq<char>, max: nat) -> Result<nat, NumberError>
    decreases s.len(),
{
    if s.len() == 0 {
        Ok(0)
    } else {
        match digits_number(s.drop_last(), max) {
            Err(e) => Err(e),
            Ok(v) => if !is_digit(s.last()) {
                Err(NumberError::InvalidDigit)
            } else if v * 10 + digit_value(s.last()) > max {
                Err(NumberError::TooLarge)
            } else {
                Ok(v * 10 + digit_value(s.last()))
            },
        }
    }
}

/// The unsigned number that `s` denotes: digits, which one `+` may precede.
pub open spec fn number(s: Seq<char>, max: nat) -> Result<nat, NumberError> {
    if s.len() == 0 {
        Err(NumberError::Empty)
    } else if s[0] == '+' {
        if s.len() == 1 {
            Err(NumberError::InvalidDigit)
        } else {
            digits_number(s.skip(1), max)
        }
    } else {
        digits_number(s, max)
    }
}

/// Whether an executable result is the one that a specification names.
pub open spec fn same_number(r: Result<u64, NumberError>, n: Result<nat, NumberError>) -> bool {
    match (r, n) {
        (Ok(v), Ok(w)) => v == w,
        (Err(a), Err(b)) => a == b,
        _ => false,
    }
}

proof fn lemma_digits_error_stays(s: Seq<char>, k: int, max: nat)
    requires
        0 <= k <= s.len(),
        digits_number(s.take(k), max) is Err,
    ensures
        digits_number(s, max) == digits_number(s.take(k), max),
    decreases s.len() - k,
{
    if k < s.len() {
        assert(s.take(k + 1).drop_last() =~= s.take(k));
        lemma_digits_error_stays(s, k + 1, max);
    } else {
        assert(s.take(k) =~= s);
    }
}

/// Reads the unsigned number that `s` denotes, up to `max`.
pub fn parse_number(s: &str, max: u64) -> (r: Result<u64, NumberError>)
    ensures
        same_number(r, number(s@, max as nat)),
{
    let chars = to_chars(s);
    if chars.len() == 0 {
        return Err(NumberError::Empty);
    }
    let mut i: usize = 0;
    if chars[0] == '+' {
        if chars.len() == 1 {
            return Err(NumberError::InvalidDigit);
        }
        i = 1;
    }
    let ghost digits = s@.skip(i as int);
    let start: usize = i;
    let mut value: u64 = 0;
    proof {
        assert(digits.take(0) =~= Seq::<char>::empty());
        assert(s@.skip(0) =~= s@);
    }
    while i < chars.len()
        invariant
            chars@ == s@,
            digits == s@.skip(start as int),
            start <= i <= chars.len(),
            value <= max,
            number(s@, max as nat) == digits_number(digits, max as nat),
            digits_number(digits.take(i - start), max as nat) == Ok::<nat, NumberError>(
                value as nat,
            ),
        decreases chars.len() - i,
    {
        let c: char = chars[i];
        proof {
            let k = i - start;
            assert(digits.take(k + 1).drop_last() =~= digits.take(k));
            assert(digits.take(k + 1).last() == c);
            if digits_number(digits.take(k + 1), max as nat) is Err {
                lemma_digits_error_stays(digits, k + 1, max as nat);
            }
        }
        if c < '0' || c > '9' {
            return Err(NumberError::InvalidDigit);
        }
        let next: u128 = (value as u128) * 10 + ((c as u128) - 48);
        if next > max as u128 {
            return Err(NumberError::TooLarge);
        }
        value = next as u64;
        i = i + 1;
    }
    assert(digits.take(i - start) =~= digits);
    Ok(value)
}

/// The pieces of `s` between the separators `sep`: one more than there are separators.
pub open spec fn split(s: Seq<char>, sep: char) -> Seq<Seq<char>>
    decreases s.len(),
{
    if s.len() == 0 {
        seq![Seq::<char>::empty()]
    } else {
        let front = split(s.drop_last(), sep);
        if s.last() == sep {
            front.push(Seq::<char>::empty())
        } else {
            front.drop_last().push(front.last().push(s.last()))
        }
    }
}

/// Splits `s` at each separator `sep`.
pub fn split_text(s: &str, sep: char) -> (r: Vec<String>)
    ensures
        texts(r@) == split(s@, sep),
{
    let mut parts: Vec<String> = Vec::new();
    let mut current = String::new();
    proof {
        assert(s@.take(0) =~= Seq::<char>::empty());
        assert(texts(parts@).push(current@) =~= split(s@.take(0), sep));
    }
    for c in it: s.chars()
        invariant
            it.seq() == s@,
            texts(parts@).push(current@) == split(s@.take(it.index() as int), sep),
    {
        let ghost before = texts(parts@).push(current@);
        let ghost prefix = s@.take(it.index() as int);
        proof {
            assert(s@.take(it.index() + 1).drop_last() =~= prefix);
            assert(s@.take(it.index() + 1).last() == c);
            assert(before.drop_last() =~= texts(parts@));
        }
        if c == sep {
            parts.push(current);
            current = String::new();
            assert(texts(parts@) =~= before);
        } else {
            current.push(c);
        }
    }
    assert(s@.take(s@.len() as int) =~= s@);
    let ghost all = texts(parts@).push(current@);
    parts.push(current);
    assert(texts(parts@) =~= all);
    parts
}

/// The pieces `parts` with `sep` between each two of them.
pub open spec fn join(parts: Seq<Seq<char>>, sep: char) -> Seq<char>
    decreases parts.len(),
{
    if parts.len() == 0 {
        Seq::empty()
    } else if parts.len() == 1 {
        parts[0]
    } else {
        join(parts.drop_last(), sep).push(sep) + parts.last()
    }
}

/// Splitting loses nothing: joining the pieces with the separator gives the text back,
/// and no piece holds the separator.
pub proof fn law_split_join(s: Seq<char>, sep: char)
    ensures
        join(split(s, sep), sep) == s,
        forall|i: int| 0 <= i < split(s, sep).len() ==> !(#[trigger] split(s, sep)[i]).contains(sep),
        split(s, sep).len() > 0,
    decreases s.len(),
{
    if s.len() > 0 {
        let front = split(s.drop_last(), sep);
        law_split_join(s.drop_last(), sep);
        if s.last() == sep {
            assert(split(s, sep).drop_last() =~= front);
            assert(join(split(s, sep), sep) =~= s);
        } else {
            let whole = split(s, sep);
            assert(whole.drop_last() =~= front.drop_last());
            assert(join(whole, sep) =~= join(front, sep).push(s.last()));
            assert forall|i: int| 0 <= i < whole.len() implies !(#[trigger] whole[i]).contains(
                sep,
            ) by {
                if i < whole.len() - 1 {
                    assert(whole[i] == front[i]);
                } else {
                    assert(!front[i].contains(sep));
                }
            }
            assert(join(whole, sep) =~= s);
        }
    }
}

/// Pieces without the separator are what splitting their join gives.
pub proof fn law_join_split(parts: Seq<Seq<char>>, sep: char)
    requires
        parts.len() > 0,
        forall|i: int| 0 <= i < parts.len() ==> !(#[trigger] parts[i]).contains(sep),
    ensures
        split(join(parts, sep), sep) == parts,
    decreases parts.len(),
{
    if parts.len() == 1 {
        lemma_split_after(Seq::<char>::empty(), parts[0], sep);
        assert(Seq::<char>::empty() + parts[0] =~= parts[0]);
        assert(split(join(parts, sep), sep) =~= parts);
    } else {
        let front = parts.drop_last();
        assert forall|i: int| 0 <= i < front.len() implies !(#[trigger] front[i]).contains(sep) by {
            assert(front[i] == parts[i]);
        }
        law_join_split(front, sep);
        let head = join(front, sep).push(sep);
        assert(head.drop_last() =~= join(front, sep));
        lemma_split_after(head, parts.last(), sep);
        assert(split(join(parts, sep), sep) =~= parts);
    }
}

/// Text without the separator extends the last piece only.
proof fn lemma_split_after(head: Seq<char>, tail: Seq<char>, sep: char)
    requires
        !tail.contains(sep),
    ensures
        split(head, sep).len() > 0,
        split(head + tail, sep) == split(head, sep).drop_last().push(split(head, sep).last() + tail),
    decreases tail.len(),
{
    law_split_join(head, sep);
    if tail.len() == 0 {
        assert(head + tail =~= head);
        assert(split(head, sep).last() + tail =~= split(head, sep).last());
        assert(split(head, sep).drop_last().push(split(head, sep).last()) =~= split(head, sep));
    } else {
        let short = tail.drop_last();
        assert(!short.contains(sep)) by {
            if short.contains(sep) {
                let i = choose|i: int| 0 <= i < short.len() && short[i] == sep;
                assert(tail[i] == sep);
            }
        }
        lemma_split_after(head, short, sep);
        assert((head + tail).drop_last() =~= head + short);
        assert(tail.last() != sep) by {
            assert(tail[tail.len() - 1] == tail.last());
        }
        let front = split(head + short, sep);
        assert(front.drop_last() =~= split(head, sep).drop_last());
        assert(front.last().push(tail.last()) =~= split(head, sep).last() + tail);
    }
}

/// Whether `c` has the Unicode property `White_Space`.
pub open spec fn is_space(c: char) -> bool {
    ||| 0x9 <= c as u32 <= 0xd
    ||| c as u32 == 0x20
    ||| c as u32 == 0x85
    ||| c as u32 == 0xa0
    ||| c as u32 == 0x1680
    ||| 0x2000 <= c as u32 <= 0x200a
    ||| c as u32 == 0x2028
    ||| c as u32 == 0x2029
    ||| c as u32 == 0x202f
    ||| c as u32 == 0x205f
    ||| c as u32 == 0x3000
}

/// Whether `c` has the Unicode property `White_Space`.
pub fn is_space_char(c: char) -> (r: bool)
    ensures
        r == is_space(c),
{
    let n: u32 = c as u32;
    (0x9 <= n && n <= 0xd) || n == 0x20 || n == 0x85 || n == 0xa0 || n == 0x1680 || (0x2000 <= n
        && n <= 0x200a) || n == 0x2028 || n == 0x2029 || n == 0x202f || n == 0x205f || n == 0x3000
}

/// The words of `s`: its longest runs without white space.
pub open spec fn words(s: Seq<char>) -> Seq<Seq<char>>
    decreases s.len(),
{
    if s.len() == 0 {
        Seq::empty()
    } else {
        let front = words(s.drop_last());
        if is_space(s.last()) {
            front
        } else if s.len() == 1 || is_space(s[s.len() - 2]) {
            front.push(seq![s.last()])
        } else {
            front.drop_last().push(front.last().push(s.last()))
        }
    }
}

/// The part of `s` before its first line feed.
pub open spec fn first_line(s: Seq<char>) -> Seq<char>
    decreases s.len(),
{
    if s.len() == 0 || s[0] == '\n' {
        Seq::empty()
    } else {
        seq![s[0]] + first_line(s.drop_first())
    }
}

proof fn lemma_first_line(s: Seq<char>, n: int)
    requires
        0 <= n <= s.len(),
        n == s.len() || s[n] == '\n',
        forall|j: int| 0 <= j < n ==> s[j] != '\n',
    ensures
        first_line(s) == s.take(n),
    decreases n,
{
    if n > 0 {
        lemma_first_line(s.drop_first(), n - 1);
        assert(seq![s[0]] + s.drop_first().take(n - 1) =~= s.take(n));
    } else {
        assert(s.take(0) =~= Seq::<char>::empty());
    }
}

/// The words of the first line of `s`.
pub fn first_line_words(s: &str) -> (r: Vec<String>)
    ensures
        texts(r@) == words(first_line(s@)),
{
    let chars = to_chars(s);
    let mut done: Vec<String> = Vec::new();
    let mut current = String::new();
    let mut in_word: bool = false;
    let mut i: usize = 0;
    proof {
        assert(s@.take(0) =~= Seq::<char>::empty());
        assert(texts(done@) =~= Seq::<Seq<char>>::empty());
    }
    while i < chars.len() && chars[i] != '\n'
        invariant
            chars@ == s@,
            0 <= i <= chars.len(),
            forall|j: int| 0 <= j < i ==> s@[j] != '\n',
            in_word <==> (i > 0 && !is_space(s@[i - 1])),
            !in_word ==> current@.len() == 0,
            words(s@.take(i as int)) == (if in_word {
                texts(done@).push(current@)
            } else {
                texts(done@)
            }),
        decreases chars.len() - i,
    {
        let c: char = chars[i];
        let ghost before = words(s@.take(i as int));
        let ghost next = s@.take(i + 1);
        proof {
            assert(next.drop_last() =~= s@.take(i as int));
            assert(next.last() == c);
            assert(i > 0 ==> next[next.len() - 2] == s@[i - 1]);
        }
        if is_space_char(c) {
            if in_word {
                done.push(current);
                current = String::new();
                in_word = false;
                assert(texts(done@) =~= before);
            }
        } else {
            let ghost old_current = current@;
            current.push(c);
            proof {
                if in_word {
                    assert(before.drop_last() =~= texts(done@));
                } else {
                    assert(current@ =~= seq![c]);
                }
            }
            in_word = true;
        }
        i = i + 1;
    }
    let ghost all = words(s@.take(i as int));
    if in_word {
        done.push(current);
        assert(texts(done@) =~= all);
    }
    proof {
        lemma_first_line(s@, i as int);
    }
    done
}

/// The decimal form of a number holds digits only, at least one, and reads back as that number.
pub proof fn law_decimal_reads_back(n: nat, max: nat)
    requires
        n <= max,
    ensures
        number(decimal(n), max) == Ok::<nat, NumberError>(n),
        decimal(n).len() > 0,
        all_digits(decimal(n)),
{
    lemma_decimal_digits(n, max);
    assert(decimal(n)[0] != '+') by {
        assert(is_digit(decimal(n)[0]));
    }
}

proof fn lemma_decimal_digits(n: nat, max: nat)
    requires
        n <= max,
    ensures
        digits_number(decimal(n), max) == Ok::<nat, NumberError>(n),
        decimal(n).len() > 0,
        all_digits(decimal(n)),
    decreases n,
{
    reveal_with_fuel(digits_number, 2);
    if n < 10 {
        assert(decimal(n).drop_last() =~= Seq::<char>::empty());
    } else {
        lemma_decimal_digits(n / 10, max);
        assert(decimal(n).drop_last() =~= decimal(n / 10));
        assert(n == (n / 10) * 10 + n % 10);
    }
}

/// No two numbers have the same decimal form.
pub proof fn law_decimal_injective(a: nat, b: nat)
    requires
        decimal(a) == decimal(b),
    ensures
        a == b,
{
    let max = if a < b { b } else { a };
    lemma_decimal_digits(a, max);
    lemma_decimal_digits(b, max);
}

/// The value of a run of digits.
pub open spec fn digits_value(s: Seq<char>) -> nat
    decreases s.len(),
{
    if s.len() == 0 {
        0
    } else {
        digits_value(s.drop_last()) * 10 + digit_value(s.last())
    }
}

/// Whether `s` holds digits only.
pub open spec fn all_digits(s: Seq<char>) -> bool {
    forall|i: int| 0 <= i < s.len() ==> is_digit(#[trigger] s[i])
}

/// `s` without the one `+` that may stand in front.
pub open spec fn without_plus(s: Seq<char>) -> Seq<char> {
    if s.len() > 0 && s[0] == '+' {
        s.skip(1)
    } else {
        s
    }
}

/// Whether `s` denotes a number of at most `max`: a non-empty run of digits, which one `+`
/// may precede.
pub open spec fn is_number(s: Seq<char>, max: nat) -> bool {
    &&& without_plus(s).len() > 0
    &&& all_digits(without_plus(s))
    &&& digits_value(without_plus(s)) <= max
}

/// A text reads as a number exactly when it is a non-empty run of digits, which one `+` may
/// precede, whose value is at most `max`; the number is that value.
pub proof fn law_number_accepts(s: Seq<char>, max: nat)
    ensures
        number(s, max) is Ok <==> is_number(s, max),
        is_number(s, max) ==> number(s, max) == Ok::<nat, NumberError>(
            digits_value(without_plus(s)),
        ),
{
    lemma_digits_number(without_plus(s), max);
}

proof fn lemma_digits_number(s: Seq<char>, max: nat)
    ensures
        digits_number(s, max) is Ok <==> all_digits(s) && digits_value(s) <= max,
        all_digits(s) && digits_value(s) <= max ==> digits_number(s, max) == Ok::<
            nat,
            NumberError,
        >(digits_value(s)),
    decreases s.len(),
{
    if s.len() > 0 {
        let front = s.drop_last();
        lemma_digits_number(front, max);
        assert(all_digits(s) <==> all_digits(front) && is_digit(s.last())) by {
            assert(forall|i: int| 0 <= i < front.len() ==> s[i] == #[trigger] front[i]);
            if all_digits(s) {
                assert(is_digit(s[s.len() - 1]));
                assert forall|i: int| 0 <= i < front.len() implies is_digit(
                    #[trigger] front[i],
                ) by {
                    assert(is_digit(s[i]));
                }
            }
            if all_digits(front) && is_digit(s.last()) {
                assert forall|i: int| 0 <= i < s.len() implies is_digit(#[trigger] s[i]) by {
                    if i < front.len() {
                        assert(is_digit(front[i]));
                    }
                }
            }
        }
    }
}

/// A list of strings holds the text of each, in order.
pub proof fn law_texts(v: Seq<String>, i: int)
    requires
        0 <= i < v.len(),
    ensures
        texts(v).len() == v.len(),
        texts(v)[i] == v[i]@,
{
}

/// The digits stand for their values, and for nothing else.
pub proof fn law_digits(c: char, d: nat)
    ensures
        is_digit(c) <==> c == '0' || c == '1' || c == '2' || c == '3' || c == '4' || c == '5' || c
            == '6' || c == '7' || c == '8' || c == '9',
        d < 10 ==> is_digit(digit_char(d)) && digit_value(digit_char(d)) == d,
        is_digit(c) ==> digit_value(c) < 10 && digit_char(digit_value(c)) == c,
        digit_char(0) == '0',
        digit_char(9) == '9',
        d < 9 ==> digit_char(d + 1) as int == digit_char(d) as int + 1,
{
}

/// The decimal form of a number is the only run of digits without leading zeros that has this
/// value: it grows by one digit as the number grows tenfold.
pub proof fn law_decimal_form(n: nat, d: nat)
    requires
        d < 10,
    ensures
        n > 0 ==> decimal(n * 10 + d) == decimal(n).push(digit_char(d)),
        decimal(d) == seq![digit_char(d)],
        n > 0 ==> decimal(n)[0] != '0',
        digits_value(decimal(n)) == n,
    decreases n,
{
    lemma_decimal_digits(n, n);
    lemma_digits_number(decimal(n), n);
    assert((n * 10 + d) / 10 == n && (n * 10 + d) % 10 == d);
    if n >= 10 {
        law_decimal_form(n / 10, 0);
        lemma_decimal_digits(n / 10, n);
        assert(decimal(n)[0] == decimal(n / 10)[0]);
    }
}

/// The value of a run of digits: that of its front ten times over, and its last digit.
pub proof fn law_digits_value(s: Seq<char>, c: char)
    requires
        '0' <= c <= '9',
    ensures
        digits_value(Seq::empty()) == 0,
        digits_value(s.push(c)) == digits_value(s) * 10 + (c as int - '0' as int),
{
    assert(s.push(c).drop_last() =~= s);
}

/// What reads as a number holds the digits `0` to `9` only, behind one `+` at most, and has a
/// value of at most `max`.
pub proof fn law_number_shape(s: Seq<char>, max: nat)
    ensures
        number(s, max) is Ok ==> s.len() > 0 && number(s, max)->Ok_0 <= max && (forall|i: int|
            0 <= i < s.len() && !(i == 0 && s[0] == '+') ==> '0' <= #[trigger] s[i] <= '9'),
        (s.len() > 0 && (forall|i: int| 0 <= i < s.len() ==> '0' <= #[trigger] s[i] <= '9')
            && digits_value(s) <= max) ==> number(s, max) == Ok::<nat, NumberError>(
            digits_value(s),
        ),
        (s.len() > 0 && (forall|i: int| 0 <= i < s.len() ==> '0' <= #[trigger] s[i] <= '9'))
            ==> number(seq!['+'] + s, max) == number(s, max),
{
    law_number_accepts(s, max);
    if number(s, max) is Ok {
        let digits = without_plus(s);
        assert forall|i: int| 0 <= i < s.len() && !(i == 0 && s[0] == '+') implies '0'
            <= #[trigger] s[i] <= '9' by {
            if s[0] == '+' {
                assert(is_digit(digits[i - 1]));
            } else {
                assert(is_digit(digits[i]));
            }
        }
        lemma_digits_number(digits, max);
    }
    if s.len() > 0 && (forall|i: int| 0 <= i < s.len() ==> '0' <= #[trigger] s[i] <= '9') {
        assert(s[0] != '+');
        assert(all_digits(s));
        assert((seq!['+'] + s).skip(1) =~= s);
    }
}

/// Why a text is no number: it is empty; or, read from the left, the first thing that goes wrong is
/// a character that is no digit (or a sign alone), or a value beyond `max`.
pub proof fn law_number_errors(s: Seq<char>, max: nat)
    ensures
        number(s, max) == Err::<nat, NumberError>(NumberError::Empty) <==> s.len() == 0,
        s == seq!['+'] ==> number(s, max) == Err::<nat, NumberError>(NumberError::InvalidDigit),
        number(s, max) == Err::<nat, NumberError>(NumberError::InvalidDigit) ==> s == seq!['+']
            || exists|k: int|
            0 <= k < s.len() && !('0' <= #[trigger] s[k] <= '9') && !(k == 0 && s[0] == '+') && (
            k == 0 || (k == 1 && s[0] == '+') || number(s.take(k), max) is Ok),
        number(s, max) == Err::<nat, NumberError>(NumberError::TooLarge) ==> exists|k: int|
            0 < k <= s.len() && all_digits(without_plus(#[trigger] s.take(k))) && digits_value(
                without_plus(s.take(k)),
            ) > max,
{
    if s.len() > 0 {
        let digits = without_plus(s);
        let shift: int = if s[0] == '+' { 1 } else { 0 };
        lemma_first_error(digits, max);
        if s[0] == '+' && s.len() == 1 {
            assert(s =~= seq!['+']);
        } else {
            assert(number(s, max) == digits_number(digits, max));
            match digits_number(digits, max) {
                Err(NumberError::InvalidDigit) => {
                    let k = choose|k: int|
                        0 <= k < digits.len() && !is_digit(#[trigger] digits[k]) && digits_number(
                            digits.take(k),
                            max,
                        ) is Ok;
                    assert(s[k + shift] == digits[k]);
                    if k > 0 {
                        let part = s.take(k + shift);
                        assert(part[0] == s[0]);
                        if shift == 1 {
                            assert(part.skip(1) =~= digits.take(k));
                        } else {
                            assert(part =~= digits.take(k));
                        }
                        assert(number(part, max) is Ok);
                    }
                },
                Err(NumberError::TooLarge) => {
                    let k = choose|k: int|
                        0 < k <= digits.len() && all_digits(#[trigger] digits.take(k))
                            && digits_value(digits.take(k)) > max;
                    let part = s.take(k + shift);
                    assert(part[0] == s[0]);
                    if shift == 1 {
                        assert(part.skip(1) =~= digits.take(k));
                    } else {
                        assert(part =~= digits.take(k));
                    }
                    assert(without_plus(part) == digits.take(k));
                },
                _ => {},
            }
        }
    }
}

proof fn lemma_first_error(s: Seq<char>, max: nat)
    ensures
        digits_number(s, max) != Err::<nat, NumberError>(NumberError::Empty),
        digits_number(s, max) == Err::<nat, NumberError>(NumberError::InvalidDigit) ==> exists|
            k: int,
        |
            0 <= k < s.len() && !is_digit(#[trigger] s[k]) && digits_number(s.take(k), max) is Ok,
        digits_number(s, max) == Err::<nat, NumberError>(NumberError::TooLarge) ==> exists|k: int|
            0 < k <= s.len() && all_digits(#[trigger] s.take(k)) && digits_value(s.take(k)) > max,
    decreases s.len(),
{
    if s.len() > 0 {
        let front = s.drop_last();
        let last = s.len() - 1;
        lemma_first_error(front, max);
        assert(s.take(last) =~= front);
        assert(s.take(s.len() as int) =~= s);
        match digits_number(front, max) {
            Err(NumberError::InvalidDigit) => {
                let k = choose|k: int|
                    0 <= k < front.len() && !is_digit(#[trigger] front[k]) && digits_number(
                        front.take(k),
                        max,
                    ) is Ok;
                assert(s[k] == front[k]);
                assert(s.take(k) =~= front.take(k));
            },
            Err(NumberError::TooLarge) => {
                let k = choose|k: int|
                    0 < k <= front.len() && all_digits(#[trigger] front.take(k)) && digits_value(
                        front.take(k),
                    ) > max;
                assert(s.take(k) =~= front.take(k));
            },
            Err(NumberError::Empty) => {},
            Ok(v) => {
                lemma_digits_number(front, max);
                if is_digit(s.last()) {
                    assert forall|i: int| 0 <= i < s.len() implies is_digit(#[trigger] s[i]) by {
                        if i < last {
                            assert(is_digit(front[i]));
                        }
                    }
                    assert(all_digits(s));
                } else {
                    assert(!is_digit(s[last]));
                }
            },
        }
    }
}

/// An executable result is the one that is named only if both are numbers, and the same one, or
/// both are errors, and the same one.
pub proof fn law_same_number(r: Result<u64, NumberError>, n: Result<nat, NumberError>)
    ensures
        same_number(r, n) ==> (r is Ok <==> n is Ok) && (r is Ok ==> r->Ok_0 as nat == n->Ok_0)
            && (r is Err ==> r->Err_0 == n->Err_0),
{
}

/// A separator parts a text: the pieces are those before it and those behind it. A text without a
/// separator is one piece.
pub proof fn law_split_at(a: Seq<char>, b: Seq<char>, sep: char)
    ensures
        split(a.push(sep) + b, sep) == split(a, sep) + split(b, sep),
        !b.contains(sep) ==> split(b, sep) == seq![b],
    decreases b.len(),
{
    law_split_join(b, sep);
    if !b.contains(sep) {
        lemma_split_after(Seq::empty(), b, sep);
        assert(Seq::<char>::empty() + b =~= b);
        assert(split(b, sep) =~= seq![b]);
    }
    if b.len() == 0 {
        assert(a.push(sep) + b =~= a.push(sep));
        assert(a.push(sep).drop_last() =~= a);
        assert(split(a.push(sep), sep) =~= split(a, sep) + split(b, sep));
    } else {
        let front = b.drop_last();
        law_split_at(a, front, sep);
        law_split_join(front, sep);
        let whole = a.push(sep) + b;
        assert(whole.drop_last() =~= a.push(sep) + front);
        assert(whole.last() == b.last());
        assert(split(whole, sep) =~= split(a, sep) + split(b, sep));
    }
}

/// Joining puts the separator between neighbouring pieces.
pub proof fn law_join_pieces(parts: Seq<Seq<char>>, piece: Seq<char>, sep: char)
    ensures
        join(seq![piece], sep) == piece,
        parts.len() > 0 ==> join(parts.push(piece), sep) == join(parts, sep) + seq![sep] + piece,
{
    assert(parts.push(piece).drop_last() =~= parts);
    assert(join(parts, sep).push(sep) + piece =~= join(parts, sep) + seq![sep] + piece);
}

/// White space parts words: the words are those before it and those behind it.
pub proof fn law_words_at(a: Seq<char>, c: char, b: Seq<char>)
    requires
        is_space(c),
    ensures
        words(a.push(c) + b) == words(a) + words(b),
    decreases b.len(),
{
    if b.len() == 0 {
        assert(a.push(c) + b =~= a.push(c));
        assert(a.push(c).drop_last() =~= a);
        assert(words(a) + words(b) =~= words(a));
    } else {
        let front = b.drop_last();
        let whole = a.push(c) + b;
        law_words_at(a, c, front);
        assert(whole.drop_last() =~= a.push(c) + front);
        assert(whole.last() == b.last());
        if b.len() == 1 {
            assert(whole[whole.len() - 2] == c);
            assert(front =~= Seq::<char>::empty());
        } else {
            assert(whole[whole.len() - 2] == b[b.len() - 2]);
            if !is_space(b.last()) && !is_space(b[b.len() - 2]) {
                lemma_ends_in_word(front);
            }
        }
        assert(words(whole) =~= words(a) + words(b));
    }
}

proof fn lemma_ends_in_word(s: Seq<char>)
    requires
        s.len() > 0,
        !is_space(s.last()),
    ensures
        words(s).len() > 0,
{
}

/// A text without white space is one word, unless it is empty.
pub proof fn law_one_word(s: Seq<char>)
    requires
        forall|i: int| 0 <= i < s.len() ==> !is_space(#[trigger] s[i]),
    ensures
        words(s) == (if s.len() == 0 {
            Seq::<Seq<char>>::empty()
        } else {
            seq![s]
        }),
    decreases s.len(),
{
    if s.len() > 0 {
        let front = s.drop_last();
        assert forall|i: int| 0 <= i < front.len() implies !is_space(#[trigger] front[i]) by {
            assert(!is_space(s[i]));
        }
        law_one_word(front);
        assert(!is_space(s[s.len() - 1]));
        if s.len() == 1 {
            assert(s =~= seq![s.last()]);
        } else {
            assert(!is_space(s[s.len() - 2]));
            assert(front.push(s.last()) =~= s);
        }
        assert(words(s) =~= seq![s]);
    }
}

/// The first line ends at the first line feed; without one it is the whole text.
pub proof fn law_first_line(line: Seq<char>, rest: Seq<char>)
    requires
        !line.contains('\n'),
    ensures
        first_line(line) == line,
        first_line(line.push('\n') + rest) == line,
{
    assert(forall|j: int| 0 <= j < line.len() ==> line[j] != '\n');
    lemma_first_line(line, line.len() as int);
    assert(line.take(line.len() as int) =~= line);
    let whole = line.push('\n') + rest;
    lemma_first_line(whole, line.len() as int);
    assert(whole.take(line.len() as int) =~= line);
}

/// Padding brings a text to its width with spaces, and leaves a wider one alone.
pub proof fn law_padding(len: nat, width: nat)
    ensures
        len + padding(len, width).len() == (if len < width {
            width
        } else {
            len
        }),
        forall|i: int| 0 <= i < padding(len, width).len() ==> #[trigger] padding(len, width)[i]
            == ' ',
{
}

/// White space is what Unicode lists as such.
pub proof fn law_spaces(c: char)
    ensures
        is_space(c) <==> c == '\t' || c == '\n' || c == '\u{b}' || c == '\u{c}' || c == '\r' || c
            == ' ' || c == '\u{85}' || c == '\u{a0}' || c == '\u{1680}' || ('\u{2000}' <= c && c
            <= '\u{200a}') || c == '\u{2028}' || c == '\u{2029}' || c == '\u{202f}' || c
            == '\u{205f}' || c == '\u{3000}',
{
}

} // verus!
