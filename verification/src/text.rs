//! Text by characters: white space, trimming, line splitting, decimal numbers.

use vstd::prelude::*;
use vstd::string::StringExecFns;

verus! {

/// `String::push` appends one character at the end.
pub assume_specification[ String::push ](text: &mut String, c: char)
    ensures
        final(text)@ == old(text)@.push(c),
;

/// A character of the Unicode property `White_Space`.
pub open spec fn is_space(c: char) -> bool {
    let u = c as u32;
    ||| 0x09 <= u <= 0x0d
    ||| u == 0x20
    ||| u == 0x85
    ||| u == 0xa0
    ||| u == 0x1680
    ||| 0x2000 <= u <= 0x200a
    ||| u == 0x2028
    ||| u == 0x2029
    ||| u == 0x202f
    ||| u == 0x205f
    ||| u == 0x3000
}

pub fn space(c: char) -> (yes: bool)
    ensures
        yes == is_space(c),
{
    let u: u32 = c as u32;
    (0x09 <= u && u <= 0x0d) || u == 0x20 || u == 0x85 || u == 0xa0 || u == 0x1680 || (0x2000 <= u
        && u <= 0x200a) || u == 0x2028 || u == 0x2029 || u == 0x202f || u == 0x205f || u == 0x3000
}

/// The characters of a text.
pub fn chars_of(text: &str) -> (out: Vec<char>)
    ensures
        out@ == text@,
{
    let mut out: Vec<char> = Vec::new();
    for c in it: text.chars()
        invariant
            it.seq() == text@,
            out@ == it.seq().take(it.index()),
    {
        out.push(c);
    }
    out
}

/// The text that consists of these characters.
pub fn string_of(chars: &Vec<char>) -> (out: String)
    ensures
        out@ == chars@,
{
    let mut out: String = String::new();
    let mut i: usize = 0;
    while i < chars.len()
        invariant
            i <= chars.len(),
            out@ == chars@.take(i as int),
        decreases chars.len() - i,
    {
        out.push(chars[i]);
        i += 1;
    }
    out
}

/// The characters from `from` up to `to`.
pub fn slice_of(chars: &Vec<char>, from: usize, to: usize) -> (out: String)
    requires
        from <= to <= chars.len(),
    ensures
        out@ == chars@.subrange(from as int, to as int),
{
    let mut out: String = String::new();
    let mut i: usize = from;
    while i < to
        invariant
            from <= i <= to <= chars.len(),
            out@ == chars@.subrange(from as int, i as int),
        decreases to - i,
    {
        out.push(chars[i]);
        i += 1;
    }
    out
}

/// An owned copy of a text.
pub fn owned(text: &str) -> (out: String)
    ensures
        out@ == text@,
{
    String::from_str(text)
}

/// Do two texts consist of the same characters?
pub fn same(a: &str, b: &str) -> (yes: bool)
    ensures
        yes == (a@ == b@),
{
    let x: Vec<char> = chars_of(a);
    let y: Vec<char> = chars_of(b);
    if x.len() != y.len() {
        return false;
    }
    let mut i: usize = 0;
    while i < x.len()
        invariant
            i <= x.len(),
            x.len() == y.len(),
            x@ == a@,
            y@ == b@,
            forall|k: int| 0 <= k < i ==> x@[k] == y@[k],
        decreases x.len() - i,
    {
        if x[i] != y[i] {
            assert(a@[i as int] != b@[i as int]);
            return false;
        }
        i += 1;
    }
    assert(a@ =~= b@);
    true
}

/// Whether a text has no characters at all.
pub fn is_empty(text: &str) -> (yes: bool)
    ensures
        yes == (text@.len() == 0),
{
    proof {
        reveal_strlit("");
        if text@.len() == 0 {
            assert(text@ =~= ""@);
        }
    }
    same(text, "")
}

/// What is left after dropping the white space in front.
pub open spec fn trim_start(s: Seq<char>) -> Seq<char>
    decreases s.len(),
{
    if s.len() > 0 && is_space(s.first()) {
        trim_start(s.drop_first())
    } else {
        s
    }
}

/// What is left after dropping the white space at the end.
pub open spec fn trim_end(s: Seq<char>) -> Seq<char>
    decreases s.len(),
{
    if s.len() > 0 && is_space(s.last()) {
        trim_end(s.drop_last())
    } else {
        s
    }
}

pub open spec fn trimmed(s: Seq<char>) -> Seq<char> {
    trim_end(trim_start(s))
}

/// The text without white space at either end.
pub fn trim(text: &str) -> (out: String)
    ensures
        out@ == trimmed(text@),
{
    let chars: Vec<char> = chars_of(text);
    let n: usize = chars.len();
    let mut from: usize = 0;
    proof {
        assert(chars@.subrange(0, n as int) =~= chars@);
    }
    while from < n && space(chars[from])
        invariant
            from <= n == chars.len(),
            trim_start(chars@.subrange(from as int, n as int)) == trim_start(chars@),
        decreases n - from,
    {
        proof {
            let rest = chars@.subrange(from as int, n as int);
            assert(rest.drop_first() =~= chars@.subrange(from + 1, n as int));
        }
        from += 1;
    }
    let ghost rest = chars@.subrange(from as int, n as int);
    assert(trim_start(chars@) == rest);
    let mut to: usize = n;
    while to > from && space(chars[to - 1])
        invariant
            from <= to <= n == chars.len(),
            rest == chars@.subrange(from as int, n as int),
            trim_end(chars@.subrange(from as int, to as int)) == trim_end(rest),
        decreases to,
    {
        proof {
            let cut = chars@.subrange(from as int, to as int);
            assert(cut.drop_last() =~= chars@.subrange(from as int, to - 1));
        }
        to -= 1;
    }
    slice_of(&chars, from, to)
}

/// Is nothing but white space in this text?
pub open spec fn blank(s: Seq<char>) -> bool {
    forall|i: int| 0 <= i < s.len() ==> is_space(#[trigger] s[i])
}

pub proof fn lemma_trimmed_empty(s: Seq<char>)
    ensures
        (trimmed(s).len() == 0) == blank(s),
    decreases s.len(),
{
    lemma_trim_start(s);
    lemma_trim_end(trim_start(s));
    if trimmed(s).len() == 0 {
        assert forall|i: int| 0 <= i < s.len() implies is_space(#[trigger] s[i]) by {
            let cut = s.len() - trim_start(s).len();
            if i >= cut {
                assert(trim_start(s)[i - cut] == s[i]);
            }
        }
    } else if blank(s) {
        let cut = s.len() - trim_start(s).len();
        assert(trimmed(s)[0] == trim_start(s)[0]);
        assert(trim_start(s)[0] == s[cut]);
    }
}

/// Trimming in front removes exactly a run of white space.
pub proof fn lemma_trim_start(s: Seq<char>)
    ensures
        trim_start(s).len() <= s.len(),
        trim_start(s) == s.subrange(s.len() - trim_start(s).len(), s.len() as int),
        forall|i: int|
            0 <= i < s.len() - trim_start(s).len() ==> is_space(#[trigger] s[i]),
        trim_start(s).len() > 0 ==> !is_space(trim_start(s).first()),
    decreases s.len(),
{
    if s.len() > 0 && is_space(s.first()) {
        let rest = s.drop_first();
        lemma_trim_start(rest);
        assert(trim_start(s) =~= s.subrange(s.len() - trim_start(s).len(), s.len() as int));
        assert forall|i: int| 0 <= i < s.len() - trim_start(s).len() implies is_space(
            #[trigger] s[i],
        ) by {
            if i > 0 {
                assert(rest[i - 1] == s[i]);
            }
        }
    } else {
        assert(s =~= s.subrange(0, s.len() as int));
    }
}

/// Trimming at the end removes exactly a run of white space.
pub proof fn lemma_trim_end(s: Seq<char>)
    ensures
        trim_end(s).len() <= s.len(),
        trim_end(s) == s.subrange(0, trim_end(s).len() as int),
        forall|i: int| trim_end(s).len() <= i < s.len() ==> is_space(#[trigger] s[i]),
        trim_end(s).len() > 0 ==> !is_space(trim_end(s).last()),
    decreases s.len(),
{
    if s.len() > 0 && is_space(s.last()) {
        let rest = s.drop_last();
        lemma_trim_end(rest);
        assert(trim_end(s) =~= s.subrange(0, trim_end(s).len() as int));
        assert forall|i: int| trim_end(s).len() <= i < s.len() implies is_space(
            #[trigger] s[i],
        ) by {
            if i < s.len() - 1 {
                assert(rest[i] == s[i]);
            }
        }
    } else {
        assert(s =~= s.subrange(0, s.len() as int));
    }
}

/// Is this text empty once trimmed?
pub fn is_blank(text: &str) -> (yes: bool)
    ensures
        yes == blank(text@),
        yes == (trimmed(text@).len() == 0),
{
    proof {
        lemma_trimmed_empty(text@);
    }
    let chars: Vec<char> = chars_of(text);
    let mut i: usize = 0;
    while i < chars.len()
        invariant
            i <= chars.len(),
            chars@ == text@,
            (trimmed(text@).len() == 0) == blank(text@),
            forall|k: int| 0 <= k < i ==> is_space(#[trigger] chars@[k]),
        decreases chars.len() - i,
    {
        if !space(chars[i]) {
            assert(!is_space(text@[i as int]));
            return false;
        }
        i += 1;
    }
    true
}

pub open spec fn lower_char(c: char) -> char {
    if 'A' <= c <= 'Z' {
        (c as u32 + 32) as char
    } else {
        c
    }
}

/// The text with the letters `A` to `Z` in lower case.
pub open spec fn lowered(s: Seq<char>) -> Seq<char> {
    s.map_values(|c: char| lower_char(c))
}

pub fn lower(text: &str) -> (out: String)
    ensures
        out@ == lowered(text@),
{
    let chars: Vec<char> = chars_of(text);
    let mut out: String = String::new();
    let mut i: usize = 0;
    while i < chars.len()
        invariant
            i <= chars.len(),
            out@ == lowered(chars@).take(i as int),
        decreases chars.len() - i,
    {
        let c: char = chars[i];
        if 'A' <= c && c <= 'Z' {
            let code: u8 = c as u8;
            let small: char = (code + 32) as char;
            out.push(small);
        } else {
            out.push(c);
        }
        i += 1;
    }
    out
}

pub open spec fn digit(d: nat) -> char {
    (48 + d) as char
}

pub open spec fn is_digit(c: char) -> bool {
    '0' <= c <= '9'
}

/// The decimal digits of a number, without leading zeros.
pub open spec fn decimal(n: nat) -> Seq<char>
    decreases n,
{
    if n < 10 {
        seq![digit(n)]
    } else {
        decimal(n / 10).push(digit(n % 10))
    }
}

pub fn decimal_text(n: u64) -> (out: String)
    ensures
        out@ == decimal(n as nat),
    decreases n,
{
    let d: u8 = (n % 10) as u8;
    let c: char = (48 + d) as char;
    let mut out: String = if n < 10 {
        String::new()
    } else {
        decimal_text(n / 10)
    };
    out.push(c);
    proof {
        assert(seq![digit(n as nat)] =~= Seq::<char>::empty().push(digit(n as nat)));
    }
    out
}

/// The number that a run of decimal digits stands for.
pub open spec fn digits_value(s: Seq<char>) -> nat
    decreases s.len(),
{
    if s.len() == 0 {
        0
    } else {
        digits_value(s.drop_last()) * 10 + (s.last() as nat - 48) as nat
    }
}

pub open spec fn all_digits(s: Seq<char>) -> bool {
    forall|i: int| 0 <= i < s.len() ==> is_digit(#[trigger] s[i])
}

/// The digits of an unsigned number: one leading `+` is allowed in front of
/// at least one digit.
pub open spec fn unsigned_digits(s: Seq<char>) -> Seq<char> {
    if s.len() > 1 && s[0] == '+' {
        s.skip(1)
    } else {
        s
    }
}

/// The unsigned number that a text spells, if it spells one up to `max`.
pub open spec fn parsed(s: Seq<char>, max: nat) -> Option<nat> {
    let d = unsigned_digits(s);
    if d.len() > 0 && all_digits(d) && digits_value(d) <= max {
        Some(digits_value(d))
    } else {
        None
    }
}

proof fn lemma_digits_grow(s: Seq<char>, i: int)
    requires
        0 <= i <= s.len(),
    ensures
        digits_value(s.take(i)) <= digits_value(s),
    decreases s.len() - i,
{
    if i < s.len() {
        assert(s.take(i + 1).drop_last() =~= s.take(i));
        lemma_digits_grow(s, i + 1);
    } else {
        assert(s.take(i) =~= s);
    }
}

fn parse_up_to(text: &str, max: u64) -> (out: Option<u64>)
    ensures
        match out {
            Some(n) => parsed(text@, max as nat) == Some(n as nat),
            None => parsed(text@, max as nat) is None,
        },
{
    let chars: Vec<char> = chars_of(text);
    let n: usize = chars.len();
    let from: usize = if n > 1 && chars[0] == '+' {
        1
    } else {
        0
    };
    if n == from {
        return None;
    }
    let ghost d = unsigned_digits(text@);
    assert(d =~= chars@.subrange(from as int, n as int));
    let mut value: u64 = 0;
    let mut fits: bool = true;
    let mut i: usize = from;
    assert(d.take(0) =~= Seq::<char>::empty());
    while i < n
        invariant
            from <= i <= n == chars.len(),
            d == chars@.subrange(from as int, n as int),
            forall|k: int| 0 <= k < i - from ==> is_digit(#[trigger] d[k]),
            fits ==> value == digits_value(d.take(i - from)) && value <= max,
            !fits ==> digits_value(d.take(i - from)) > max,
            d == unsigned_digits(text@),
        decreases n - i,
    {
        let c: char = chars[i];
        assert(d[i - from] == c);
        if !('0' <= c && c <= '9') {
            assert(!is_digit(d[i - from]));
            return None;
        }
        let ghost seen = d.take(i - from);
        let ghost next = d.take(i + 1 - from);
        assert(next.drop_last() =~= seen);
        assert(next.last() == c);
        let step: u64 = (c as u64) - 48;
        if fits {
            match value.checked_mul(10) {
                Some(tens) => match tens.checked_add(step) {
                    Some(sum) => {
                        if sum <= max {
                            value = sum;
                        } else {
                            fits = false;
                        }
                    },
                    None => {
                        fits = false;
                    },
                },
                None => {
                    fits = false;
                },
            }
        }
        i += 1;
    }
    assert(d.take(n - from) =~= d);
    if fits {
        Some(value)
    } else {
        None
    }
}

/// An unsigned number of pointer size, as `str::parse` reads it.
pub fn parse_usize(text: &str) -> (out: Option<usize>)
    ensures
        match out {
            Some(n) => parsed(text@, usize::MAX as nat) == Some(n as nat),
            None => parsed(text@, usize::MAX as nat) is None,
        },
{
    match parse_up_to(text, usize::MAX as u64) {
        Some(n) => Some(n as usize),
        None => None,
    }
}

pub fn parse_u64(text: &str) -> (out: Option<u64>)
    ensures
        match out {
            Some(n) => parsed(text@, u64::MAX as nat) == Some(n as nat),
            None => parsed(text@, u64::MAX as nat) is None,
        },
{
    parse_up_to(text, u64::MAX)
}

/// Decimal text consists of digits and spells the number it was made from.
pub proof fn law_decimal_reads_back(n: nat, max: nat)
    requires
        n <= max,
    ensures
        parsed(decimal(n), max) == Some(n),
        all_digits(decimal(n)),
        decimal(n).len() > 0,
{
    lemma_decimal(n);
    assert(unsigned_digits(decimal(n)) == decimal(n)) by {
        assert(is_digit(decimal(n)[0]));
    }
}

pub proof fn lemma_decimal(n: nat)
    ensures
        all_digits(decimal(n)),
        decimal(n).len() > 0,
        digits_value(decimal(n)) == n,
    decreases n,
{
    reveal_with_fuel(digits_value, 2);
    if n < 10 {
        assert(decimal(n).drop_last() =~= Seq::<char>::empty());
    } else {
        lemma_decimal(n / 10);
        assert(decimal(n).drop_last() =~= decimal(n / 10));
        assert forall|i: int| 0 <= i < decimal(n).len() implies is_digit(
            #[trigger] decimal(n)[i],
        ) by {
            if i < decimal(n).len() - 1 {
                assert(decimal(n)[i] == decimal(n / 10)[i]);
            }
        }
    }
}

/// Does a text begin with `prefix`?
pub open spec fn starts(s: Seq<char>, prefix: Seq<char>) -> bool {
    prefix.len() <= s.len() && s.take(prefix.len() as int) == prefix
}

/// What follows `prefix`, if the text begins with it.
pub fn strip_prefix(text: &str, prefix: &str) -> (rest: Option<String>)
    ensures
        match rest {
            Some(r) => starts(text@, prefix@) && r@ == text@.skip(prefix@.len() as int),
            None => !starts(text@, prefix@),
        },
{
    let s: Vec<char> = chars_of(text);
    let p: Vec<char> = chars_of(prefix);
    if p.len() > s.len() {
        return None;
    }
    let mut i: usize = 0;
    while i < p.len()
        invariant
            i <= p.len() <= s.len(),
            s@ == text@,
            p@ == prefix@,
            forall|k: int| 0 <= k < i ==> s@[k] == p@[k],
        decreases p.len() - i,
    {
        if s[i] != p[i] {
            assert(text@.take(prefix@.len() as int)[i as int] != prefix@[i as int]);
            return None;
        }
        i += 1;
    }
    assert(text@.take(prefix@.len() as int) =~= prefix@);
    let rest: String = slice_of(&s, p.len(), s.len());
    assert(rest@ =~= text@.skip(prefix@.len() as int));
    Some(rest)
}

/// The contents of a list of texts.
pub open spec fn texts(list: Seq<String>) -> Seq<Seq<char>> {
    list.map_values(|t: String| t@)
}

/// A copy of a list of texts.
pub fn copy_texts(list: &Vec<String>) -> (out: Vec<String>)
    ensures
        texts(out@) == texts(list@),
{
    let mut out: Vec<String> = Vec::new();
    let mut i: usize = 0;
    while i < list.len()
        invariant
            i <= list.len(),
            out.len() == i,
            forall|k: int| 0 <= k < i ==> (#[trigger] out@[k])@ == list@[k]@,
        decreases list.len() - i,
    {
        out.push(owned(list[i].as_str()));
        i += 1;
    }
    assert(texts(out@) =~= texts(list@));
    out
}

/// The texts one after another with a separator between neighbours.
pub open spec fn joined(parts: Seq<Seq<char>>, sep: Seq<char>) -> Seq<char>
    decreases parts.len(),
{
    if parts.len() == 0 {
        Seq::empty()
    } else if parts.len() == 1 {
        parts[0]
    } else {
        joined(parts.drop_last(), sep) + sep + parts.last()
    }
}

pub fn join(parts: &Vec<String>, sep: &str) -> (out: String)
    ensures
        out@ == joined(texts(parts@), sep@),
{
    let mut out: String = String::new();
    let mut i: usize = 0;
    while i < parts.len()
        invariant
            i <= parts.len(),
            out@ == joined(texts(parts@).take(i as int), sep@),
        decreases parts.len() - i,
    {
        proof {
            let now = texts(parts@).take(i as int);
            let next = texts(parts@).take(i + 1);
            assert(next.drop_last() =~= now);
            assert(next.last() == parts@[i as int]@);
            assert(Seq::<char>::empty() + parts@[i as int]@ =~= parts@[i as int]@);
        }
        if i > 0 {
            out.append(sep);
        }
        out.append(parts[i].as_str());
        i += 1;
    }
    assert(texts(parts@).take(i as int) =~= texts(parts@));
    out
}

/// How many characters stand before the first `stop`, or all of them.
pub open spec fn run_before(s: Seq<char>, stop: char) -> nat
    decreases s.len(),
{
    if s.len() == 0 || s[0] == stop {
        0
    } else {
        1 + run_before(s.skip(1), stop)
    }
}

pub proof fn lemma_run_before(s: Seq<char>, stop: char)
    ensures
        run_before(s, stop) <= s.len(),
        forall|i: int| 0 <= i < run_before(s, stop) ==> #[trigger] s[i] != stop,
        run_before(s, stop) < s.len() ==> s[run_before(s, stop) as int] == stop,
    decreases s.len(),
{
    if s.len() > 0 && s[0] != stop {
        let rest = s.skip(1);
        lemma_run_before(rest, stop);
        assert forall|i: int| 0 <= i < run_before(s, stop) implies #[trigger] s[i] != stop by {
            if i > 0 {
                assert(rest[i - 1] == s[i]);
            }
        }
    }
}

/// A run is as long as its bounds say.
pub proof fn lemma_run_is(s: Seq<char>, stop: char, n: nat)
    requires
        n <= s.len(),
        forall|i: int| 0 <= i < n ==> #[trigger] s[i] != stop,
        n < s.len() ==> s[n as int] == stop,
    ensures
        run_before(s, stop) == n,
{
    lemma_run_before(s, stop);
    let r = run_before(s, stop);
    if r < n {
        assert(s[r as int] != stop);
    }
    if n < r {
        assert(s[n as int] != stop);
    }
}

/// The pieces between the separators; a text without a separator is its own
/// only piece.
pub open spec fn pieces(s: Seq<char>, sep: char) -> Seq<Seq<char>>
    decreases s.len(),
{
    let n = run_before(s, sep);
    if n >= s.len() {
        seq![s]
    } else {
        seq![s.take(n as int)] + pieces(s.skip(n as int + 1), sep)
    }
}

pub fn split(text: &str, sep: char) -> (out: Vec<String>)
    ensures
        texts(out@) == pieces(text@, sep),
{
    let chars: Vec<char> = chars_of(text);
    let n: usize = chars.len();
    let mut out: Vec<String> = Vec::new();
    let mut from: usize = 0;
    assert(chars@.skip(0) =~= chars@);
    assert(texts(out@) + pieces(chars@, sep) =~= pieces(chars@, sep));
    loop
        invariant
            from <= n == chars.len(),
            chars@ == text@,
            texts(out@) + pieces(chars@.skip(from as int), sep) == pieces(text@, sep),
        decreases n - from,
    {
        let ghost rest = chars@.skip(from as int);
        let mut to: usize = from;
        while to < n && chars[to] != sep
            invariant
                from <= to <= n == chars.len(),
                rest == chars@.skip(from as int),
                forall|k: int| 0 <= k < to - from ==> #[trigger] rest[k] != sep,
            decreases n - to,
        {
            assert(rest[to - from] == chars@[to as int]);
            to += 1;
        }
        proof {
            if to < n {
                assert(rest[to - from] == chars@[to as int]);
            }
            lemma_run_is(rest, sep, (to - from) as nat);
        }
        let piece: String = slice_of(&chars, from, to);
        let ghost before = texts(out@);
        out.push(piece);
        assert(texts(out@) =~= before.push(piece@));
        if to >= n {
            assert(piece@ =~= rest);
            assert(before + seq![rest] =~= before.push(rest));
            return out;
        }
        proof {
            assert(piece@ =~= rest.take(to - from));
            assert(rest.skip(to - from + 1) =~= chars@.skip(to + 1));
            assert(before + (seq![piece@] + pieces(chars@.skip(to + 1), sep)) =~= before.push(
                piece@,
            ) + pieces(chars@.skip(to + 1), sep));
        }
        from = to + 1;
    }
}

pub open spec fn without_return(line: Seq<char>) -> Seq<char> {
    if line.len() > 0 && line.last() == '\r' {
        line.drop_last()
    } else {
        line
    }
}

/// The lines of a text. A line ends with a line feed or with a carriage
/// return and a line feed; the last line may lack its ending.
pub open spec fn lines(s: Seq<char>) -> Seq<Seq<char>>
    decreases s.len(),
{
    let n = run_before(s, '\n');
    if s.len() == 0 {
        Seq::empty()
    } else if n >= s.len() {
        seq![s]
    } else {
        seq![without_return(s.take(n as int))] + lines(s.skip(n as int + 1))
    }
}

/// The contents of a list of lines.
pub open spec fn line_views(list: Seq<Vec<char>>) -> Seq<Seq<char>> {
    list.map_values(|l: Vec<char>| l@)
}

fn chars_between(chars: &Vec<char>, from: usize, to: usize) -> (out: Vec<char>)
    requires
        from <= to <= chars.len(),
    ensures
        out@ == chars@.subrange(from as int, to as int),
{
    let mut out: Vec<char> = Vec::new();
    let mut i: usize = from;
    while i < to
        invariant
            from <= i <= to <= chars.len(),
            out@ == chars@.subrange(from as int, i as int),
        decreases to - i,
    {
        out.push(chars[i]);
        i += 1;
    }
    out
}

pub fn lines_of(text: &str) -> (out: Vec<Vec<char>>)
    ensures
        line_views(out@) == lines(text@),
{
    let chars: Vec<char> = chars_of(text);
    let n: usize = chars.len();
    let mut out: Vec<Vec<char>> = Vec::new();
    let mut from: usize = 0;
    assert(chars@.skip(0) =~= chars@);
    assert(line_views(out@) + lines(chars@) =~= lines(chars@));
    while from < n
        invariant
            from <= n == chars.len(),
            chars@ == text@,
            line_views(out@) + lines(chars@.skip(from as int)) == lines(text@),
        decreases n - from,
    {
        let ghost rest = chars@.skip(from as int);
        let mut to: usize = from;
        while to < n && chars[to] != '\n'
            invariant
                from <= to <= n == chars.len(),
                rest == chars@.skip(from as int),
                forall|k: int| 0 <= k < to - from ==> #[trigger] rest[k] != '\n',
            decreases n - to,
        {
            assert(rest[to - from] == chars@[to as int]);
            to += 1;
        }
        proof {
            if to < n {
                assert(rest[to - from] == chars@[to as int]);
            }
            lemma_run_is(rest, '\n', (to - from) as nat);
        }
        let ghost before = line_views(out@);
        if to >= n {
            let line: Vec<char> = chars_between(&chars, from, n);
            assert(line@ =~= rest);
            out.push(line);
            assert(line_views(out@) =~= before + seq![rest]);
            from = n;
            assert(chars@.skip(n as int) =~= Seq::<char>::empty());
            assert(line_views(out@) + Seq::<Seq<char>>::empty() =~= line_views(out@));
        } else {
            let end: usize = if to > from && chars[to - 1] == '\r' {
                to - 1
            } else {
                to
            };
            let line: Vec<char> = chars_between(&chars, from, end);
            proof {
                assert(rest.take(to - from) =~= chars@.subrange(from as int, to as int));
                assert(line@ =~= without_return(rest.take(to - from)));
                assert(rest.skip(to - from + 1) =~= chars@.skip(to + 1));
            }
            out.push(line);
            assert(line_views(out@) =~= before.push(line@));
            assert(before + (seq![line@] + lines(chars@.skip(to + 1))) =~= before.push(line@)
                + lines(chars@.skip(to + 1)));
            from = to + 1;
        }
    }
    assert(chars@.skip(from as int) =~= Seq::<char>::empty());
    assert(line_views(out@) + Seq::<Seq<char>>::empty() =~= line_views(out@));
    out
}

/// A text of one character.
pub fn text_of(c: char) -> (text: String)
    ensures
        text@ == seq![c],
{
    let mut text: String = String::new();
    text.push(c);
    assert(text@ =~= seq![c]);
    text
}

/// Where a text first stands in a list, from `n` on; the length of the list
/// where it does not.
pub open spec fn place_in(list: Seq<Seq<char>>, wanted: Seq<char>, n: int) -> int
    decreases list.len() - n,
{
    if n < 0 || n >= list.len() {
        list.len() as int
    } else if list[n] == wanted {
        n
    } else {
        place_in(list, wanted, n + 1)
    }
}

pub fn find_text(list: &Vec<String>, wanted: &str) -> (at: usize)
    ensures
        at == place_in(texts(list@), wanted@, 0),
        at <= list@.len(),
{
    let mut i: usize = 0;
    while i < list.len()
        invariant
            i <= list@.len(),
            place_in(texts(list@), wanted@, 0) == place_in(texts(list@), wanted@, i as int),
        decreases list.len() - i,
    {
        assert(texts(list@)[i as int] == list@[i as int]@);
        if same(list[i].as_str(), wanted) {
            return i;
        }
        i += 1;
    }
    list.len()
}

/// The blank, the tabulator and the ends of lines are white space; no visible
/// character of ASCII is.
pub proof fn law_visible_characters_are_no_space(c: char)
    ensures
        c == ' ' || c == '\t' || c == '\n' || c == '\r' ==> is_space(c),
        '!' <= c <= '~' ==> !is_space(c),
        is_space(c) && c <= '~' ==> c == ' ' || '\t' <= c <= '\r',
{
}

/// Trimming takes the white space at the two ends of a text and nothing else:
/// what is left is one stretch of the text, it neither begins nor ends with
/// white space, and only white space was around it.
pub proof fn law_trimming_takes_the_ends_only(s: Seq<char>)
    ensures
        exists|from: int, to: int|
            {
                &&& 0 <= from <= to <= s.len()
                &&& trimmed(s) == #[trigger] s.subrange(from, to)
                &&& forall|i: int| 0 <= i < from ==> is_space(#[trigger] s[i])
                &&& forall|i: int| to <= i < s.len() ==> is_space(#[trigger] s[i])
                &&& from < to ==> !is_space(s[from]) && !is_space(s[to - 1])
            },
        trimmed(trimmed(s)) == trimmed(s),
{
    lemma_trim_start(s);
    let t = trim_start(s);
    lemma_trim_end(t);
    let from = s.len() - t.len();
    let to = from + trim_end(t).len();
    assert(trimmed(s) =~= s.subrange(from, to));
    assert forall|i: int| to <= i < s.len() implies is_space(#[trigger] s[i]) by {
        assert(t[i - from] == s[i]);
    }
    let u = trimmed(s);
    if u.len() > 0 {
        assert(u[0] == t[0]);
        assert(trim_start(u) == u);
    }
}

proof fn lemma_joined_front(first: Seq<char>, rest: Seq<Seq<char>>, sep: Seq<char>)
    requires
        rest.len() > 0,
    ensures
        joined(seq![first] + rest, sep) == first + sep + joined(rest, sep),
    decreases rest.len(),
{
    reveal_with_fuel(joined, 2);
    let all = seq![first] + rest;
    if rest.len() == 1 {
        assert(all.drop_last() =~= seq![first]);
        assert(all.last() == rest[0]);
    } else {
        assert(all.drop_last() =~= seq![first] + rest.drop_last());
        lemma_joined_front(first, rest.drop_last(), sep);
        assert(first + sep + joined(rest.drop_last(), sep) + sep + rest.last() =~= first + sep + (
        joined(rest.drop_last(), sep) + sep + rest.last()));
    }
}

/// Splitting a text at a character and joining the pieces with it gives the
/// text back, and no piece holds that character.
pub proof fn law_joining_undoes_splitting(s: Seq<char>, sep: char)
    ensures
        joined(pieces(s, sep), seq![sep]) == s,
        pieces(s, sep).len() > 0,
        forall|k: int, i: int|
            0 <= k < pieces(s, sep).len() && 0 <= i < pieces(s, sep)[k].len() ==> #[trigger] pieces(
                s,
                sep,
            )[k][i] != sep,
    decreases s.len(),
{
    lemma_run_before(s, sep);
    let n = run_before(s, sep);
    let all = pieces(s, sep);
    if n >= s.len() {
        assert forall|k: int, i: int|
            0 <= k < all.len() && 0 <= i < all[k].len() implies #[trigger] all[k][i] != sep by {
            assert(s[i] != sep);
        }
    } else {
        let rest = s.skip(n as int + 1);
        law_joining_undoes_splitting(rest, sep);
        lemma_joined_front(s.take(n as int), pieces(rest, sep), seq![sep]);
        assert(s.take(n as int) + seq![sep] + rest =~= s);
        assert forall|k: int, i: int|
            0 <= k < all.len() && 0 <= i < all[k].len() implies #[trigger] all[k][i] != sep by {
            if k == 0 {
                assert(all[0][i] == s[i]);
            } else {
                assert(all[k] == pieces(rest, sep)[k - 1]);
                assert(pieces(rest, sep)[k - 1][i] != sep);
            }
        }
    }
}

/// A line is what stands before a line feed, without a carriage return right
/// before it; what follows is read on its own. A last line without its ending
/// counts as it is, and an empty text has no lines.
pub proof fn law_a_line_ends_at_its_line_feed(line: Seq<char>, rest: Seq<char>)
    requires
        forall|i: int| 0 <= i < line.len() ==> #[trigger] line[i] != '\n',
    ensures
        lines(Seq::<char>::empty()).len() == 0,
        line.len() > 0 ==> lines(line) == seq![line],
        line.len() == 0 || line.last() != '\r' ==> lines(line + seq!['\n'] + rest) == seq![line]
            + lines(rest),
        lines(line + seq!['\r', '\n'] + rest) == seq![line] + lines(rest),
{
    lemma_run_is(line, '\n', line.len());
    let a = line + seq!['\n'] + rest;
    lemma_run_is(a, '\n', line.len());
    assert(a.take(line.len() as int) =~= line);
    assert(a.skip(line.len() as int + 1) =~= rest);
    let b = line + seq!['\r', '\n'] + rest;
    lemma_run_is(b, '\n', line.len() + 1);
    assert(b.take(line.len() as int + 1) =~= line.push('\r'));
    assert(line.push('\r').drop_last() =~= line);
    assert(b.skip(line.len() as int + 2) =~= rest);
}

/// How a number is read: digit by digit in base ten, an optional plus in front,
/// and nothing else may stand in it. A number beyond the bound is refused.
pub proof fn law_numbers_are_read_in_base_ten(s: Seq<char>, c: char, max: nat)
    ensures
        parsed(Seq::<char>::empty(), max) is None,
        parsed(seq!['+'], max) is None,
        '0' <= c <= '9' ==> parsed(seq![c], 9) == Some((c as int - 48) as nat),
        !('0' <= c <= '9') ==> parsed(s.push(c), max) is None,
        parsed(s, max) is Some && '0' <= c <= '9' ==> parsed(s.push(c), max) == if parsed(
            s,
            max,
        )->0 * 10 + (c as int - 48) <= max {
            Some((parsed(s, max)->0 * 10 + (c as int - 48)) as nat)
        } else {
            None
        },
        parsed(s, max) is Some && s[0] != '+' ==> parsed(seq!['+'] + s, max) == parsed(s, max),
        parsed(s, max) matches Some(n) ==> n <= max,
{
    reveal_with_fuel(digits_value, 2);
    let d = unsigned_digits(s);
    let t = s.push(c);
    assert(seq![c].drop_last() =~= Seq::<char>::empty());
    assert(all_digits(seq!['+']) ==> is_digit(seq!['+'][0]));
    if !('0' <= c <= '9') {
        let e = unsigned_digits(t);
        assert(e[e.len() - 1] == c);
    }
    if parsed(s, max) is Some && '0' <= c <= '9' {
        if s.len() == 1 && s[0] == '+' {
            assert(is_digit(d[0]));
        }
        assert(unsigned_digits(t) =~= d.push(c));
        assert(d.push(c).drop_last() =~= d);
        assert forall|i: int| 0 <= i < d.push(c).len() implies is_digit(
            #[trigger] d.push(c)[i],
        ) by {
            if i < d.len() {
                assert(is_digit(d[i]));
            }
        }
    }
    if parsed(s, max) is Some && s[0] != '+' {
        assert((seq!['+'] + s).skip(1) =~= s);
    }
}

/// A text is found at its first place in a list; where it is not in the list,
/// the answer is the length of the list.
pub proof fn law_a_text_is_found_where_it_first_stands(list: Seq<Seq<char>>, wanted: Seq<char>)
    ensures
        ({
            let at = place_in(list, wanted, 0);
            &&& 0 <= at <= list.len()
            &&& at < list.len() ==> list[at] == wanted
            &&& forall|k: int| 0 <= k < at ==> #[trigger] list[k] != wanted
        }),
{
    lemma_place_in(list, wanted, 0);
}

proof fn lemma_place_in(list: Seq<Seq<char>>, wanted: Seq<char>, n: int)
    requires
        0 <= n <= list.len(),
    ensures
        n <= place_in(list, wanted, n) <= list.len(),
        place_in(list, wanted, n) < list.len() ==> list[place_in(list, wanted, n)] == wanted,
        forall|k: int| n <= k < place_in(list, wanted, n) ==> #[trigger] list[k] != wanted,
    decreases list.len() - n,
{
    if n < list.len() && list[n] != wanted {
        lemma_place_in(list, wanted, n + 1);
    }
}

/// Lower case changes the letters from `A` to `Z` and nothing else.
pub proof fn law_lower_case_changes_capitals_only(s: Seq<char>, i: int)
    requires
        0 <= i < s.len(),
    ensures
        lowered(s).len() == s.len(),
        !('A' <= s[i] <= 'Z') ==> lowered(s)[i] == s[i],
        'A' <= s[i] <= 'Z' ==> 'a' <= lowered(s)[i] <= 'z' && lowered(s)[i] as int - 'a' as int
            == s[i] as int - 'A' as int,
{
}

/// White space is what Unicode calls so, the 25 characters of that property
/// and no other.
pub proof fn law_white_space_is_that_of_unicode(c: char)
    ensures
        is_space(c) <==> {
            ||| c == '\u{9}' || c == '\u{a}' || c == '\u{b}' || c == '\u{c}' || c == '\u{d}'
            ||| c == '\u{20}' || c == '\u{85}' || c == '\u{a0}' || c == '\u{1680}'
            ||| c == '\u{2000}' || c == '\u{2001}' || c == '\u{2002}' || c == '\u{2003}'
            ||| c == '\u{2004}' || c == '\u{2005}' || c == '\u{2006}' || c == '\u{2007}'
            ||| c == '\u{2008}' || c == '\u{2009}' || c == '\u{200a}'
            ||| c == '\u{2028}' || c == '\u{2029}' || c == '\u{202f}' || c == '\u{205f}'
            ||| c == '\u{3000}'
        },
{
}

} // verus!
