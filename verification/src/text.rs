//! Reading and writing the short ASCII texts that header values hold.
use vstd::prelude::*;

verus! {

/// A character that may stand in the text of a header value: visible ASCII,
/// the space and the tab.
pub open spec fn visible(c: char) -> bool {
    ' ' <= c <= '~' || c == '\t'
}

/// A text of visible characters only.
pub open spec fn is_text(s: Seq<char>) -> bool {
    forall|i: int| #![trigger s[i]] 0 <= i < s.len() ==> visible(s[i])
}

/// The blanks of such a text.
pub open spec fn blank(c: char) -> bool {
    c == ' ' || c == '\t'
}

/// `s` without the blanks it begins with.
pub open spec fn trimmed_start(s: Seq<char>) -> Seq<char>
    decreases s.len(),
{
    if s.len() > 0 && blank(s[0]) {
        trimmed_start(s.drop_first())
    } else {
        s
    }
}

/// `s` without the blanks it ends with.
pub open spec fn trimmed_end(s: Seq<char>) -> Seq<char>
    decreases s.len(),
{
    if s.len() > 0 && blank(s.last()) {
        trimmed_end(s.drop_last())
    } else {
        s
    }
}

/// `s` without the blanks around it.
pub open spec fn trimmed(s: Seq<char>) -> Seq<char> {
    trimmed_end(trimmed_start(s))
}

/// A visible ASCII character other than the space.
pub open spec fn graphic(c: char) -> bool {
    '!' <= c <= '~'
}

/// `c` with an ASCII capital letter made small.
pub open spec fn lower_char(c: char) -> char {
    if 'A' <= c <= 'Z' {
        ((c as u32) + 32) as char
    } else {
        c
    }
}

/// `s` with its ASCII capital letters made small.
pub open spec fn lower(s: Seq<char>) -> Seq<char> {
    s.map_values(|c: char| lower_char(c))
}

/// `part` stands somewhere in `s`.
pub open spec fn has_part(s: Seq<char>, part: Seq<char>) -> bool {
    exists|i: int|
        0 <= i <= s.len() - part.len() && #[trigger] s.subrange(i, i + part.len()) == part
}

pub open spec fn is_digit(c: char) -> bool {
    '0' <= c <= '9'
}

/// The number that a run of decimal digits writes.
pub open spec fn digits_value(s: Seq<char>) -> nat
    decreases s.len(),
{
    if s.len() == 0 {
        0
    } else {
        digits_value(s.drop_last()) * 10 + (s.last() as int - '0' as int) as nat
    }
}

/// `s` without a leading plus sign.
pub open spec fn unsigned_part(s: Seq<char>) -> Seq<char> {
    if s.len() > 0 && s[0] == '+' {
        s.drop_first()
    } else {
        s
    }
}

/// The number that `s` writes in decimal, if it writes one that fits 64 bits.
pub open spec fn parsed_u64(s: Seq<char>) -> Option<u64> {
    let digits = unsigned_part(s);
    if digits.len() > 0 && (forall|i: int|
        #![trigger digits[i]]
        0 <= i < digits.len() ==> is_digit(digits[i])) && digits_value(digits) <= u64::MAX {
        Some(digits_value(digits) as u64)
    } else {
        None
    }
}

/// `n` written in decimal.
pub open spec fn decimal(n: nat) -> Seq<char>
    decreases n,
{
    if n < 10 {
        seq![('0' as int + n) as char]
    } else {
        decimal(n / 10).push(('0' as int + n % 10) as char)
    }
}

/// `bytes` is the ASCII encoding of `s`.
pub open spec fn spelled(bytes: Seq<u8>, s: Seq<char>) -> bool {
    &&& bytes.len() == s.len()
    &&& forall|i: int|
        #![trigger bytes[i]]
        #![trigger s[i]]
        0 <= i < s.len() ==> bytes[i] as int == s[i] as int
}

pub proof fn lemma_ascii_spelled(s: Seq<char>)
    requires
        vstd::utf8::is_ascii_chars(s),
    ensures
        spelled(vstd::utf8::encode_utf8(s), s),
{
    vstd::utf8::is_ascii_chars_encode_utf8(s);
}

proof fn lemma_trimmed_start_range(s: Seq<char>, k: int)
    requires
        0 <= k <= s.len(),
        forall|i: int| #![trigger s[i]] 0 <= i < k ==> blank(s[i]),
        k < s.len() ==> !blank(s[k]),
    ensures
        trimmed_start(s) == s.subrange(k, s.len() as int),
    decreases k,
{
    if k > 0 {
        assert(blank(s[0]));
        let t = s.drop_first();
        assert forall|i: int| 0 <= i < k - 1 implies blank(#[trigger] t[i]) by {
            assert(t[i] == s[i + 1]);
        }
        lemma_trimmed_start_range(t, k - 1);
        assert(t.subrange(k - 1, t.len() as int) =~= s.subrange(k, s.len() as int));
    } else {
        assert(s.subrange(0, s.len() as int) =~= s);
    }
}

proof fn lemma_trimmed_end_range(s: Seq<char>, k: int)
    requires
        0 <= k <= s.len(),
        forall|i: int| #![trigger s[i]] k <= i < s.len() ==> blank(s[i]),
        k > 0 ==> !blank(s[k - 1]),
    ensures
        trimmed_end(s) == s.subrange(0, k),
    decreases s.len() - k,
{
    if k < s.len() {
        assert(blank(s[s.len() - 1]));
        let t = s.drop_last();
        lemma_trimmed_end_range(t, k);
        assert(t.subrange(0, k) =~= s.subrange(0, k));
    } else {
        assert(s.subrange(0, k) =~= s);
    }
}

/// Removes the blanks around a text.
pub(crate) fn trim(text: &str) -> (r: &str)
    requires
        is_text(text@),
    ensures
        r@ == trimmed(text@),
        is_text(r@),
{
    proof {
        lemma_ascii_spelled(text@);
    }
    let bytes = text.as_bytes();
    let mut start: usize = 0;
    while start < bytes.len() && (bytes[start] == 32 || bytes[start] == 9)
        invariant
            spelled(bytes@, text@),
            start <= bytes.len(),
            forall|i: int| #![trigger text@[i]] 0 <= i < start ==> blank(text@[i]),
        decreases bytes.len() - start,
    {
        assert(blank(text@[start as int]));
        start = start + 1;
    }
    let ghost head = text@.subrange(start as int, text@.len() as int);
    proof {
        if start < text@.len() {
            assert(!blank(text@[start as int]));
        }
        lemma_trimmed_start_range(text@, start as int);
    }
    let mut end: usize = bytes.len();
    while start < end && (bytes[end - 1] == 32 || bytes[end - 1] == 9)
        invariant
            spelled(bytes@, text@),
            start <= end <= bytes.len(),
            forall|i: int| #![trigger text@[i]] end <= i < text@.len() ==> blank(text@[i]),
        decreases end,
    {
        assert(blank(text@[end - 1]));
        end = end - 1;
    }
    proof {
        assert forall|i: int| end - start <= i < head.len() implies blank(#[trigger] head[i]) by {
            assert(head[i] == text@[i + start]);
        }
        if start < end {
            assert(!blank(text@[end - 1]));
            assert(head[end - start - 1] == text@[end - 1]);
        }
        lemma_trimmed_end_range(head, end - start);
        assert(head.subrange(0, end - start) =~= text@.subrange(start as int, end as int));
    }
    text.substring_ascii(start, end)
}

/// Whether `part` stands somewhere in `text`.
pub(crate) fn contains(text: &str, part: &str) -> (r: bool)
    requires
        vstd::utf8::is_ascii_chars(text@),
        vstd::utf8::is_ascii_chars(part@),
    ensures
        r == has_part(text@, part@),
{
    proof {
        lemma_ascii_spelled(text@);
        lemma_ascii_spelled(part@);
    }
    let a = text.as_bytes();
    let b = part.as_bytes();
    if a.len() < b.len() {
        return false;
    }
    let last: usize = a.len() - b.len();
    let mut i: usize = 0;
    loop
        invariant
            spelled(a@, text@),
            spelled(b@, part@),
            last == a.len() - b.len(),
            i <= last,
            forall|k: int|
                0 <= k < i ==> #[trigger] text@.subrange(k, k + part@.len()) != part@,
        decreases last - i,
    {
        let mut j: usize = 0;
        while j < b.len() && a[i + j] == b[j]
            invariant
                spelled(a@, text@),
                spelled(b@, part@),
                last == a.len() - b.len(),
                i <= last,
                j <= b.len(),
                forall|k: int| #![trigger part@[k]] 0 <= k < j ==> text@[i + k] == part@[k],
            decreases b.len() - j,
        {
            assert(text@[i + j] == part@[j as int]);
            j = j + 1;
        }
        let ghost here = text@.subrange(i as int, i + part@.len());
        if j == b.len() {
            assert(here =~= part@);
            return true;
        }
        assert(here != part@) by {
            assert(here[j as int] == text@[i + j]);
            assert(text@[i + j] as int == a@[i + j] as int);
            assert(part@[j as int] as int == b@[j as int] as int);
        }
        if i == last {
            return false;
        }
        i = i + 1;
    }
}

/// Whether all of `text` is graphic.
pub(crate) fn all_graphic(text: &str) -> (r: bool)
    requires
        vstd::utf8::is_ascii_chars(text@),
    ensures
        r == (forall|i: int| #![trigger text@[i]] 0 <= i < text@.len() ==> graphic(text@[i])),
{
    proof {
        lemma_ascii_spelled(text@);
    }
    let bytes = text.as_bytes();
    let mut i: usize = 0;
    while i < bytes.len()
        invariant
            spelled(bytes@, text@),
            i <= bytes.len(),
            forall|k: int| #![trigger text@[k]] 0 <= k < i ==> graphic(text@[k]),
        decreases bytes.len() - i,
    {
        if bytes[i] < 33 || bytes[i] > 126 {
            assert(!graphic(text@[i as int]));
            return false;
        }
        i = i + 1;
    }
    true
}

/// Whether two texts are the same.
pub(crate) fn same_text(a: &str, b: &str) -> (r: bool)
    ensures
        r == (a@ == b@),
{
    a.to_owned() == b.to_owned()
}

/// Whether `text` is `word`, but for the case of ASCII letters.
pub(crate) fn same_word(text: &str, word: &str) -> (r: bool)
    requires
        vstd::utf8::is_ascii_chars(text@),
        vstd::utf8::is_ascii_chars(word@),
    ensures
        r == (lower(text@) == lower(word@)),
{
    proof {
        lemma_ascii_spelled(text@);
        lemma_ascii_spelled(word@);
    }
    let a = text.as_bytes();
    let b = word.as_bytes();
    if a.len() != b.len() {
        assert(lower(text@).len() != lower(word@).len());
        return false;
    }
    let mut i: usize = 0;
    while i < a.len()
        invariant
            spelled(a@, text@),
            spelled(b@, word@),
            a.len() == b.len(),
            i <= a.len(),
            forall|k: int|
                #![trigger text@[k]]
                0 <= k < i ==> lower_char(text@[k]) == lower_char(word@[k]),
        decreases a.len() - i,
    {
        let x: u8 = lower_byte(a[i]);
        let y: u8 = lower_byte(b[i]);
        assert(x as int == lower_char(text@[i as int]) as int);
        assert(y as int == lower_char(word@[i as int]) as int);
        if x != y {
            assert(lower(text@)[i as int] != lower(word@)[i as int]);
            return false;
        }
        i = i + 1;
    }
    assert(lower(text@) =~= lower(word@));
    true
}

fn lower_byte(b: u8) -> (r: u8)
    ensures
        r as int == if 65 <= b <= 90 {
            b + 32
        } else {
            b as int
        },
{
    if b >= 65 && b <= 90 {
        b + 32
    } else {
        b
    }
}

proof fn lemma_digits_grow(s: Seq<char>, k: int)
    requires
        0 <= k <= s.len(),
        forall|i: int| #![trigger s[i]] 0 <= i < s.len() ==> is_digit(s[i]),
    ensures
        digits_value(s.subrange(0, k)) <= digits_value(s),
    decreases s.len() - k,
{
    if k == s.len() {
        assert(s.subrange(0, k) =~= s);
    } else {
        assert(s.subrange(0, k + 1).drop_last() =~= s.subrange(0, k));
        lemma_digits_grow(s, k + 1);
    }
}

/// Reads a decimal number of at most 64 bits, with or without a plus sign.
pub(crate) fn parse_u64(text: &str) -> (r: Option<u64>)
    requires
        vstd::utf8::is_ascii_chars(text@),
    ensures
        r == parsed_u64(text@),
{
    proof {
        lemma_ascii_spelled(text@);
    }
    let bytes = text.as_bytes();
    let start: usize = if bytes.len() > 0 && bytes[0] == 43 {
        1
    } else {
        0
    };
    let ghost digits = unsigned_part(text@);
    assert(digits =~= text@.subrange(start as int, text@.len() as int));
    if start == bytes.len() {
        return None;
    }
    let mut i: usize = start;
    while i < bytes.len()
        invariant
            spelled(bytes@, text@),
            digits == unsigned_part(text@),
            digits == text@.subrange(start as int, text@.len() as int),
            start <= i <= bytes.len(),
            forall|k: int| #![trigger digits[k]] 0 <= k < i - start ==> is_digit(digits[k]),
        decreases bytes.len() - i,
    {
        assert(digits[i - start] == text@[i as int]);
        if bytes[i] < 48 || bytes[i] > 57 {
            assert(!is_digit(digits[i - start]));
            return None;
        }
        i = i + 1;
    }
    let mut value: u64 = 0;
    let mut j: usize = start;
    assert(digits.subrange(0, 0).len() == 0);
    while j < bytes.len()
        invariant
            spelled(bytes@, text@),
            digits == unsigned_part(text@),
            digits == text@.subrange(start as int, text@.len() as int),
            start <= j <= bytes.len(),
            forall|k: int| #![trigger digits[k]] 0 <= k < digits.len() ==> is_digit(digits[k]),
            value == digits_value(digits.subrange(0, j - start)),
        decreases bytes.len() - j,
    {
        assert(digits[j - start] == text@[j as int]);
        let digit: u64 = (bytes[j] - 48) as u64;
        proof {
            let next = digits.subrange(0, j - start + 1);
            assert(next.drop_last() =~= digits.subrange(0, j - start));
            lemma_digits_grow(digits, j - start + 1);
        }
        if value > (u64::MAX - digit) / 10 {
            return None;
        }
        value = value * 10 + digit;
        j = j + 1;
    }
    assert(digits.subrange(0, digits.len() as int) =~= digits);
    Some(value)
}

fn digit_text(d: u64) -> (r: &'static str)
    requires
        d < 10,
    ensures
        r@ == seq![('0' as int + d) as char],
{
    proof {
        reveal_strlit("0");
        reveal_strlit("1");
        reveal_strlit("2");
        reveal_strlit("3");
        reveal_strlit("4");
        reveal_strlit("5");
        reveal_strlit("6");
        reveal_strlit("7");
        reveal_strlit("8");
        reveal_strlit("9");
    }
    let r: &'static str = match d {
        0 => "0",
        1 => "1",
        2 => "2",
        3 => "3",
        4 => "4",
        5 => "5",
        6 => "6",
        7 => "7",
        8 => "8",
        _ => "9",
    };
    assert(r@ =~= seq![('0' as int + d) as char]);
    r
}

/// Writes a number in decimal.
pub(crate) fn to_decimal(n: u64) -> (r: String)
    ensures
        r@ == decimal(n as nat),
    decreases n,
{
    if n < 10 {
        digit_text(n).to_owned()
    } else {
        let mut r = to_decimal(n / 10);
        let ghost before = r@;
        r.append(digit_text(n % 10));
        assert(r@ =~= before.push(('0' as int + n % 10) as char));
        r
    }
}

/// A decimal number is written in digits.
pub proof fn lemma_decimal_digits(n: nat)
    ensures
        decimal(n).len() > 0,
        forall|i: int|
            #![trigger decimal(n)[i]]
            0 <= i < decimal(n).len() ==> is_digit(decimal(n)[i]),
    decreases n,
{
    if n >= 10 {
        lemma_decimal_digits(n / 10);
    }
}

/// A number that is written in decimal is read back as itself.
pub proof fn lemma_decimal_reads_back(n: u64)
    ensures
        parsed_u64(decimal(n as nat)) == Some(n),
{
    lemma_decimal_digits(n as nat);
    lemma_decimal_value(n as nat);
    let s = decimal(n as nat);
    assert(is_digit(s[0]));
}

proof fn lemma_decimal_value(n: nat)
    ensures
        digits_value(decimal(n)) == n,
        decimal(n).len() > 0,
    decreases n,
{
    if n < 10 {
        reveal_with_fuel(digits_value, 2);
        assert(decimal(n).drop_last() =~= Seq::<char>::empty());
    } else {
        lemma_decimal_value(n / 10);
        assert(decimal(n).drop_last() =~= decimal(n / 10));
    }
}

/// `s[i..j]` is one item of a comma-separated list.
pub open spec fn list_item(s: Seq<char>, i: int, j: int) -> bool {
    &&& 0 <= i <= j <= s.len()
    &&& i == 0 || s[i - 1] == ','
    &&& j == s.len() || s[j] == ','
    &&& forall|k: int| #![trigger s[k]] i <= k < j ==> s[k] != ','
}

/// The comma-separated list `s` names `item`, whatever blanks stand around it.
pub open spec fn lists(s: Seq<char>, item: Seq<char>) -> bool {
    exists|i: int, j: int| #[trigger] list_item(s, i, j) && trimmed(s.subrange(i, j)) == item
}

/// The items of a comma-separated list, without the blanks around them.
pub(crate) fn list_items(text: &str) -> (r: Vec<String>)
    requires
        is_text(text@),
    ensures
        forall|k: int|
            #![trigger r@[k]]
            0 <= k < r@.len() ==> lists(text@, r@[k]@) && is_text(r@[k]@),
        forall|item: Seq<char>|
            lists(text@, item) ==> exists|k: int| 0 <= k < r@.len() && #[trigger] r@[k]@ == item,
{
    proof {
        lemma_ascii_spelled(text@);
    }
    let bytes = text.as_bytes();
    let mut r: Vec<String> = Vec::new();
    let mut start: usize = 0;
    let mut end: usize = 0;
    loop
        invariant
            is_text(text@),
            spelled(bytes@, text@),
            start <= end <= bytes.len(),
            start == 0 || text@[start - 1] == ',',
            forall|k: int| #![trigger text@[k]] start <= k < end ==> text@[k] != ',',
            forall|k: int|
                #![trigger r@[k]]
                0 <= k < r@.len() ==> lists(text@, r@[k]@) && is_text(r@[k]@),
            forall|i: int, j: int|
                #![trigger list_item(text@, i, j)]
                list_item(text@, i, j) && i < start ==> exists|k: int|
                    0 <= k < r@.len() && #[trigger] r@[k]@ == trimmed(text@.subrange(i, j)),
        decreases bytes.len() - end, bytes.len() + 1 - start,
    {
        if end < bytes.len() && bytes[end] != 44 {
            assert(text@[end as int] as int == bytes@[end as int] as int);
            end = end + 1;
        } else {
            let ghost before = r@;
            let part = text.substring_ascii(start, end);
            let item = trim(part).to_owned();
            assert(list_item(text@, start as int, end as int)) by {
                if end < bytes.len() {
                    assert(text@[end as int] as int == bytes@[end as int] as int);
                }
            }
            r.push(item);
            assert(r@[r@.len() - 1]@ == trimmed(text@.subrange(start as int, end as int)));
            assert forall|i: int, j: int|
                #[trigger] list_item(text@, i, j) && i <= start implies exists|k: int|
                0 <= k < r@.len() && #[trigger] r@[k]@ == trimmed(text@.subrange(i, j)) by {
                if i == start {
                    lemma_item_end(text@, start as int, j, end as int);
                } else {
                    let k = choose|k: int|
                        0 <= k < before.len() && #[trigger] before[k]@ == trimmed(
                            text@.subrange(i, j),
                        );
                    assert(r@[k] == before[k]);
                }
            }
            if end == bytes.len() {
                assert forall|item: Seq<char>| lists(text@, item) implies exists|k: int|
                    0 <= k < r@.len() && #[trigger] r@[k]@ == item by {
                    let (i, j) = choose|i: int, j: int| #[trigger]
                        list_item(text@, i, j) && trimmed(text@.subrange(i, j)) == item;
                    if i > start {
                        assert(text@[i - 1] == ',');
                    }
                }
                return r;
            }
            assert(text@[end as int] as int == bytes@[end as int] as int);
            assert forall|i: int, j: int|
                #[trigger] list_item(text@, i, j) && i < end + 1 implies exists|k: int|
                0 <= k < r@.len() && #[trigger] r@[k]@ == trimmed(text@.subrange(i, j)) by {
                if i > start {
                    assert(text@[i - 1] == ',');
                }
            }
            end = end + 1;
            start = end;
        }
    }
}

proof fn lemma_item_end(s: Seq<char>, i: int, j: int, k: int)
    requires
        list_item(s, i, j),
        list_item(s, i, k),
    ensures
        j == k,
{
    if j < k {
        assert(s[j] == ',');
    } else if k < j {
        assert(s[k] == ',');
    }
}

proof fn lemma_trimmed_bounds(s: Seq<char>) -> (r: (int, int))
    ensures
        0 <= r.0 <= r.1 <= s.len(),
        trimmed(s) == s.subrange(r.0, r.1),
        forall|k: int|
            #![trigger s[k]]
            0 <= k < r.0 || r.1 <= k < s.len() ==> s[k] == ' ' || s[k] == '\t',
        r.0 < r.1 ==> s[r.0] != ' ' && s[r.0] != '\t' && s[r.1 - 1] != ' ' && s[r.1 - 1] != '\t',
    decreases s.len(),
{
    if s.len() > 0 && blank(s[0]) {
        let t = s.drop_first();
        let (i, j) = lemma_trimmed_bounds(t);
        assert(t.subrange(i, j) =~= s.subrange(i + 1, j + 1));
        assert forall|k: int| 0 <= k < i + 1 || j + 1 <= k < s.len() implies #[trigger] s[k] == ' '
            || s[k] == '\t' by {
            if k > 0 {
                assert(t[k - 1] == s[k]);
            }
        }
        assert(trimmed(s) == trimmed(t));
        (i + 1, j + 1)
    } else {
        assert(trimmed_start(s) == s);
        let j = lemma_trimmed_end_bound(s);
        (0int, j)
    }
}

proof fn lemma_trimmed_end_bound(s: Seq<char>) -> (j: int)
    ensures
        0 <= j <= s.len(),
        trimmed_end(s) == s.subrange(0, j),
        forall|k: int| #![trigger s[k]] j <= k < s.len() ==> s[k] == ' ' || s[k] == '\t',
        j > 0 ==> s[j - 1] != ' ' && s[j - 1] != '\t',
    decreases s.len(),
{
    if s.len() > 0 && blank(s.last()) {
        let t = s.drop_last();
        let j = lemma_trimmed_end_bound(t);
        assert(t.subrange(0, j) =~= s.subrange(0, j));
        assert forall|k: int| j <= k < s.len() implies #[trigger] s[k] == ' ' || s[k] == '\t' by {
            if k < t.len() {
                assert(t[k] == s[k]);
            }
        }
        if j > 0 {
            assert(t[j - 1] == s[j - 1]);
        }
        j
    } else {
        assert(s.subrange(0, s.len() as int) =~= s);
        s.len() as int
    }
}

/// Trimming takes spaces and tabs off both ends of a text and nothing else:
/// what is left begins and ends with another character, or is empty.
pub proof fn law_trimming_takes_blanks_off_the_ends(s: Seq<char>)
    ensures
        exists|i: int, j: int|
            #![trigger s.subrange(i, j)]
            0 <= i <= j <= s.len() && trimmed(s) == s.subrange(i, j) && (forall|k: int|
                #![trigger s[k]]
                0 <= k < i || j <= k < s.len() ==> s[k] == ' ' || s[k] == '\t') && (i < j ==> s[i]
                != ' ' && s[i] != '\t' && s[j - 1] != ' ' && s[j - 1] != '\t'),
{
    let (i, j) = lemma_trimmed_bounds(s);
    assert(trimmed(s) == s.subrange(i, j));
}

/// Lower case changes the 26 capital letters of ASCII and no other character.
pub proof fn law_lower_case_changes_capitals_alone(s: Seq<char>)
    ensures
        lower(s).len() == s.len(),
        forall|i: int|
            #![trigger lower(s)[i]]
            0 <= i < s.len() ==> if 'A' <= s[i] <= 'Z' {
                lower(s)[i] as int == s[i] as int + ('a' as int - 'A' as int)
            } else {
                lower(s)[i] == s[i]
            },
{
}

/// A part of a text is what can be cut out of it between a beginning and an
/// end.
pub proof fn law_part_is_cut_out(s: Seq<char>, part: Seq<char>)
    ensures
        has_part(s, part) <==> exists|before: Seq<char>, after: Seq<char>|
            s == #[trigger] (before + part + after),
{
    if has_part(s, part) {
        let i = choose|i: int|
            0 <= i <= s.len() - part.len() && #[trigger] s.subrange(i, i + part.len()) == part;
        let before = s.subrange(0, i);
        let after = s.subrange(i + part.len(), s.len() as int);
        assert forall|k: int| i <= k < i + part.len() implies s[k] == part[k - i] by {
            assert(s.subrange(i, i + part.len())[k - i] == s[k]);
        }
        assert(s =~= before + part + after);
    }
    if exists|before: Seq<char>, after: Seq<char>| s == #[trigger] (before + part + after) {
        let (before, after) = choose|before: Seq<char>, after: Seq<char>|
            s == #[trigger] (before + part + after);
        let i = before.len() as int;
        assert(s.subrange(i, i + part.len()) =~= part);
    }
}

/// A number is read digit by digit: one more digit makes ten times the number
/// and that digit, as long as 64 bits hold it. A plus sign may come first, and
/// any other character makes it no number, as does having no digit at all.
pub proof fn law_numbers_are_read_digit_by_digit(s: Seq<char>, c: char)
    ensures
        parsed_u64(Seq::empty()) is None,
        !('0' <= c <= '9') ==> parsed_u64(s.push(c)) is None,
        '0' <= c <= '9' && (s.len() == 0 || s == seq!['+']) ==> parsed_u64(s.push(c)) == Some(
            (c as int - '0' as int) as u64,
        ),
        '0' <= c <= '9' && s.len() > 0 && s != seq!['+'] ==> parsed_u64(s.push(c)) == match
            parsed_u64(s) {
            Some(n) => if n * 10 + (c as int - '0' as int) <= u64::MAX {
                Some((n * 10 + (c as int - '0' as int)) as u64)
            } else {
                None
            },
            None => None,
        },
{
    let t = s.push(c);
    let old_digits = unsigned_part(s);
    let new_digits = unsigned_part(t);
    if s.len() == 0 {
        if c != '+' {
            assert(new_digits =~= seq![c]);
            assert(new_digits[0] == c);
            reveal_with_fuel(digits_value, 2);
            assert(new_digits.drop_last() =~= Seq::empty());
        }
    } else {
        assert(t[0] == s[0]);
        assert(new_digits =~= old_digits.push(c));
        assert(new_digits[new_digits.len() - 1] == c);
        if '0' <= c <= '9' {
            assert(new_digits.drop_last() =~= old_digits);
            assert(digits_value(new_digits) == digits_value(old_digits) * 10 + (c as int
                - '0' as int));
            assert((forall|i: int|
                #![trigger new_digits[i]]
                0 <= i < new_digits.len() ==> is_digit(new_digits[i])) == (forall|i: int|
                #![trigger old_digits[i]]
                0 <= i < old_digits.len() ==> is_digit(old_digits[i]))) by {
                if forall|i: int|
                    #![trigger new_digits[i]]
                    0 <= i < new_digits.len() ==> is_digit(new_digits[i]) {
                    assert forall|i: int| 0 <= i < old_digits.len() implies is_digit(
                        #[trigger] old_digits[i],
                    ) by {
                        assert(new_digits[i] == old_digits[i]);
                    }
                }
            }
            if s == seq!['+'] {
                assert(old_digits =~= Seq::empty());
                reveal_with_fuel(digits_value, 2);
            } else if old_digits.len() == 0 {
                assert(s =~= seq!['+']);
            }
        }
    }
}

/// A number is written digit by digit, the last digit last: ten times a
/// number and a digit is written as the number and then the digit.
pub proof fn law_numbers_are_written_digit_by_digit(n: nat, d: nat)
    requires
        d < 10,
    ensures
        decimal(d).len() == 1 && decimal(d)[0] as int == '0' as int + d,
        n > 0 ==> decimal(n * 10 + d) == decimal(n) + decimal(d),
{
    if n > 0 {
        let m = n * 10 + d;
        assert(m / 10 == n);
        assert(m % 10 == d);
        assert(decimal(m) =~= decimal(n) + decimal(d));
    }
}

/// A list names what either side of one of its commas names, and a text
/// without a comma names itself without the blanks around it.
pub proof fn law_commas_part_a_list(a: Seq<char>, b: Seq<char>, item: Seq<char>)
    ensures
        lists(a + seq![','] + b, item) <==> lists(a, item) || lists(b, item),
        !a.contains(',') ==> (lists(a, item) <==> item == trimmed(a)),
{
    let s = a + seq![','] + b;
    let n = a.len() as int;
    assert(s[n] == ',');
    if lists(s, item) {
        let (i, j) = choose|i: int, j: int| #[trigger]
            list_item(s, i, j) && trimmed(s.subrange(i, j)) == item;
        if i <= n {
            if j > n {
                assert(s[n] != ',');
            }
            assert(s.subrange(i, j) =~= a.subrange(i, j));
            if i > 0 {
                assert(s[i - 1] == a[i - 1]);
            }
            if j < n {
                assert(s[j] == a[j]);
            }
            assert forall|k: int| i <= k < j implies #[trigger] a[k] != ',' by {
                assert(s[k] == a[k]);
            }
            assert(list_item(a, i, j));
            assert(lists(a, item));
        } else {
            let p = i - n - 1;
            let q = j - n - 1;
            assert(s.subrange(i, j) =~= b.subrange(p, q));
            if p > 0 {
                assert(s[i - 1] == b[p - 1]);
            }
            if q < b.len() {
                assert(s[j] == b[q]);
            }
            assert forall|k: int| p <= k < q implies #[trigger] b[k] != ',' by {
                assert(s[k + n + 1] == b[k]);
            }
            assert(list_item(b, p, q));
            assert(lists(b, item));
        }
    }
    if lists(a, item) {
        let (i, j) = choose|i: int, j: int| #[trigger]
            list_item(a, i, j) && trimmed(a.subrange(i, j)) == item;
        assert(s.subrange(i, j) =~= a.subrange(i, j));
        if i > 0 {
            assert(s[i - 1] == a[i - 1]);
        }
        if j < n {
            assert(s[j] == a[j]);
        }
        assert forall|k: int| i <= k < j implies #[trigger] s[k] != ',' by {
            assert(s[k] == a[k]);
        }
        assert(list_item(s, i, j));
    }
    if lists(b, item) {
        let (p, q) = choose|i: int, j: int| #[trigger]
            list_item(b, i, j) && trimmed(b.subrange(i, j)) == item;
        let i = p + n + 1;
        let j = q + n + 1;
        assert(s.subrange(i, j) =~= b.subrange(p, q));
        if p > 0 {
            assert(s[i - 1] == b[p - 1]);
        }
        if q < b.len() {
            assert(s[j] == b[q]);
        }
        assert forall|k: int| i <= k < j implies #[trigger] s[k] != ',' by {
            assert(s[k] == b[k - n - 1]);
        }
        assert(list_item(s, i, j));
    }
    if !a.contains(',') {
        assert forall|k: int| 0 <= k < a.len() implies #[trigger] a[k] != ',' by {
            if a[k] == ',' {
                assert(a.contains(','));
            }
        }
        assert(a.subrange(0, n) =~= a);
        assert(list_item(a, 0, n));
        if lists(a, item) {
            let (i, j) = choose|i: int, j: int| #[trigger]
                list_item(a, i, j) && trimmed(a.subrange(i, j)) == item;
            if i > 0 {
                assert(a[i - 1] == ',');
            }
            if j < n {
                assert(a[j] == ',');
            }
        }
    }
}

} // verus!
