//! The text form in which aggregates are stored.
//!
//! A number is written in decimal and closed by a semicolon. A text is
//! written as the number of its characters, a colon, and the characters. A
//! list is written as the number of its items, then the items; a structure
//! as its fields, one after the other. Every type that can be stored says
//! through [`Codec`] what text stands for a value and what value a text
//! stands for, and proves that reading what was written gives the value
//! back.

pub mod collections;
pub mod models;

use crate::text::{decimal_of, digit};
use vstd::prelude::*;
use vstd::string::*;

verus! {

/// `String::push` appends one character.
pub assume_specification[ String::push ](s: &mut String, c: char)
    ensures
        final(s)@ == old(s)@.push(c),
;

/// A type with a text form.
pub trait Codec: DeepView + Sized {
    /// Whether `v` is what a value of the type can hold.
    spec fn sound(v: Self::V) -> bool;

    /// The text that stands for `v`.
    spec fn encoded(v: Self::V) -> Seq<char>;

    /// The value that the start of `text` stands for, and the text that
    /// follows it; nothing where `text` does not start with the text of a
    /// value.
    spec fn decoded(text: Seq<char>) -> Option<(Self::V, Seq<char>)>;

    /// Reading what was written gives the value back, whatever follows it.
    proof fn lemma_round_trip(v: Self::V, rest: Seq<char>)
        requires
            Self::sound(v),
        ensures
            Self::decoded(Self::encoded(v) + rest) == Some((v, rest)),
    ;

    /// Writes the value at the end of `out`.
    fn encode(&self, out: &mut Vec<char>)
        ensures
            Self::sound(self.deep_view()),
            final(out)@ == old(out)@ + Self::encoded(self.deep_view()),
    ;

    /// Reads a value from `text` at place `at`, and says where the text
    /// after it starts.
    fn decode(text: &Vec<char>, at: usize) -> (r: Option<(Self, usize)>)
        requires
            at <= text@.len(),
        ensures
            match r {
                Some((v, next)) => {
                    &&& at <= next <= text@.len()
                    &&& Self::sound(v.deep_view())
                    &&& Self::decoded(text@.skip(at as int)) == Some(
                        (v.deep_view(), text@.skip(next as int)),
                    )
                },
                None => Self::decoded(text@.skip(at as int)) is None,
            },
    ;
}

/// Joining texts does not depend on how they are grouped.
pub proof fn lemma_concat_assoc(a: Seq<char>, b: Seq<char>, c: Seq<char>)
    ensures
        (a + b) + c == a + (b + c),
{
    assert((a + b) + c =~= a + (b + c));
}

/// The characters of a text.
pub fn chars_of(s: &str) -> (r: Vec<char>)
    ensures
        r@ == s@,
{
    let mut r: Vec<char> = Vec::new();
    for c in it: s.chars()
        invariant
            r@ == it.seq().take(it.index() as int),
            it.seq() == s@,
    {
        r.push(c);
        assert(r@ =~= it.seq().take(it.index() as int + 1));
    }
    assert(r@ =~= s@);
    r
}

/// The text made of the characters `chars[from..to]`.
pub fn text_of(chars: &Vec<char>, from: usize, to: usize) -> (r: String)
    requires
        from <= to <= chars@.len(),
    ensures
        r@ == chars@.subrange(from as int, to as int),
{
    let mut r = String::new();
    let mut i: usize = from;
    while i < to
        invariant
            from <= i <= to <= chars@.len(),
            r@ == chars@.subrange(from as int, i as int),
        decreases to - i,
    {
        r.push(chars[i]);
        assert(r@ =~= chars@.subrange(from as int, i as int + 1));
        i += 1;
    }
    r
}

/// The value of a decimal digit; nothing for any other character.
pub open spec fn digit_of(c: char) -> Option<nat> {
    if c == '0' {
        Some(0)
    } else if c == '1' {
        Some(1)
    } else if c == '2' {
        Some(2)
    } else if c == '3' {
        Some(3)
    } else if c == '4' {
        Some(4)
    } else if c == '5' {
        Some(5)
    } else if c == '6' {
        Some(6)
    } else if c == '7' {
        Some(7)
    } else if c == '8' {
        Some(8)
    } else if c == '9' {
        Some(9)
    } else {
        None
    }
}

/// Reads on in a number whose digits so far give `acc`: the digits up to
/// the character `stop` continue it. `seen` says whether a digit was read.
/// A number without digits, a number above the largest 64-bit number, and
/// a text that ends before `stop` give nothing.
pub open spec fn number_from(text: Seq<char>, stop: char, acc: nat, seen: bool) -> Option<
    (nat, Seq<char>),
>
    decreases text.len(),
{
    if text.len() == 0 {
        None
    } else if text[0] == stop {
        if seen {
            Some((acc, text.drop_first()))
        } else {
            None
        }
    } else {
        match digit_of(text[0]) {
            Some(d) => if acc * 10 + d > u64::MAX {
                None
            } else {
                number_from(text.drop_first(), stop, acc * 10 + d, true)
            },
            None => None,
        }
    }
}

/// The number that `text` starts with, closed by `stop`, and the text
/// after `stop`.
pub open spec fn number_in(text: Seq<char>, stop: char) -> Option<(nat, Seq<char>)> {
    number_from(text, stop, 0, false)
}

/// A number in decimal, closed by `stop`.
pub open spec fn number_text(n: nat, stop: char) -> Seq<char> {
    decimal_of(n).push(stop)
}

/// Reading the digits of `n` leaves the reader at what follows them, with
/// `n` read.
proof fn lemma_digits_read(n: nat, stop: char, tail: Seq<char>)
    requires
        n <= u64::MAX,
        digit_of(stop) is None,
    ensures
        number_from(decimal_of(n) + tail, stop, 0, false) == number_from(tail, stop, n, true),
    decreases n,
{
    if n < 10 {
        let text = decimal_of(n) + tail;
        assert(text[0] == digit(n));
        assert(digit_of(digit(n)) == Some(n));
        assert(text.drop_first() =~= tail);
    } else {
        let last = seq![digit(n % 10)] + tail;
        lemma_digits_read(n / 10, stop, last);
        assert(decimal_of(n) + tail =~= decimal_of(n / 10) + last);
        assert(last[0] == digit(n % 10));
        assert(digit_of(digit(n % 10)) == Some(n % 10));
        assert(last.drop_first() =~= tail);
        assert((n / 10) * 10 + n % 10 == n);
    }
}

/// Reading a number that was written gives the number back.
pub proof fn lemma_number_round_trip(n: nat, stop: char, rest: Seq<char>)
    requires
        n <= u64::MAX,
        digit_of(stop) is None,
    ensures
        number_in(number_text(n, stop) + rest, stop) == Some((n, rest)),
{
    let tail = seq![stop] + rest;
    lemma_digits_read(n, stop, tail);
    assert(number_text(n, stop) + rest =~= decimal_of(n) + tail);
    assert(tail.drop_first() =~= rest);
}

fn digit_char(d: u64) -> (c: char)
    requires
        d < 10,
    ensures
        c == digit(d as nat),
{
    if d == 0 {
        '0'
    } else if d == 1 {
        '1'
    } else if d == 2 {
        '2'
    } else if d == 3 {
        '3'
    } else if d == 4 {
        '4'
    } else if d == 5 {
        '5'
    } else if d == 6 {
        '6'
    } else if d == 7 {
        '7'
    } else if d == 8 {
        '8'
    } else {
        '9'
    }
}

fn digit_value(c: char) -> (r: Option<u64>)
    ensures
        match r {
            Some(d) => d < 10 && digit_of(c) == Some(d as nat),
            None => digit_of(c) is None,
        },
{
    if c == '0' {
        Some(0)
    } else if c == '1' {
        Some(1)
    } else if c == '2' {
        Some(2)
    } else if c == '3' {
        Some(3)
    } else if c == '4' {
        Some(4)
    } else if c == '5' {
        Some(5)
    } else if c == '6' {
        Some(6)
    } else if c == '7' {
        Some(7)
    } else if c == '8' {
        Some(8)
    } else if c == '9' {
        Some(9)
    } else {
        None
    }
}

fn put_digits(out: &mut Vec<char>, n: u64)
    ensures
        final(out)@ == old(out)@ + decimal_of(n as nat),
    decreases n,
{
    if n >= 10 {
        put_digits(out, n / 10);
    }
    out.push(digit_char(n % 10));
    assert(out@ =~= old(out)@ + decimal_of(n as nat));
}

/// Writes a number in decimal, closed by `stop`.
pub fn put_number(out: &mut Vec<char>, n: u64, stop: char)
    ensures
        final(out)@ == old(out)@ + number_text(n as nat, stop),
{
    put_digits(out, n);
    out.push(stop);
    assert(out@ =~= old(out)@ + number_text(n as nat, stop));
}

/// Reads a number closed by `stop` from `text` at place `at`, and says
/// where the text after `stop` starts.
pub fn take_number(text: &Vec<char>, at: usize, stop: char) -> (r: Option<(u64, usize)>)
    requires
        at <= text@.len(),
    ensures
        match r {
            Some((n, next)) => at < next <= text@.len() && number_in(text@.skip(at as int), stop)
                == Some((n as nat, text@.skip(next as int))),
            None => number_in(text@.skip(at as int), stop) is None,
        },
{
    let mut acc: u64 = 0;
    let mut seen: bool = false;
    let mut i: usize = at;
    while i < text.len()
        invariant
            at <= i <= text@.len(),
            seen == (i > at),
            number_in(text@.skip(at as int), stop) == number_from(
                text@.skip(i as int),
                stop,
                acc as nat,
                seen,
            ),
        decreases text@.len() - i,
    {
        let c = text[i];
        assert(text@.skip(i as int)[0] == c);
        assert(text@.skip(i as int).drop_first() =~= text@.skip(i as int + 1));
        if c == stop {
            if seen {
                return Some((acc, i + 1));
            } else {
                return None;
            }
        }
        match digit_value(c) {
            Some(d) => {
                if acc > (u64::MAX - d) / 10 {
                    return None;
                }
                acc = acc * 10 + d;
                seen = true;
            },
            None => {
                return None;
            },
        }
        i += 1;
    }
    None
}

/// The stop that closes a number.
pub open spec fn number_stop() -> char {
    ';'
}

/// The stop that closes the length of a text.
pub open spec fn length_stop() -> char {
    ':'
}

/// The text form of a text: the number of its characters, a colon, the
/// characters.
pub open spec fn text_encoded(s: Seq<char>) -> Seq<char> {
    number_text(s.len(), length_stop()) + s
}

/// The text that the start of `text` stands for, and what follows it.
pub open spec fn text_decoded(text: Seq<char>) -> Option<(Seq<char>, Seq<char>)> {
    match number_in(text, length_stop()) {
        Some((n, rest)) => if n <= rest.len() {
            Some((rest.take(n as int), rest.skip(n as int)))
        } else {
            None
        },
        None => None,
    }
}

impl Codec for u64 {
    open spec fn sound(v: u64) -> bool {
        true
    }

    open spec fn encoded(v: u64) -> Seq<char> {
        number_text(v as nat, number_stop())
    }

    open spec fn decoded(text: Seq<char>) -> Option<(u64, Seq<char>)> {
        match number_in(text, number_stop()) {
            Some((n, rest)) => if n <= u64::MAX {
                Some((n as u64, rest))
            } else {
                None
            },
            None => None,
        }
    }

    proof fn lemma_round_trip(v: u64, rest: Seq<char>) {
        lemma_number_round_trip(v as nat, number_stop(), rest);
    }

    fn encode(&self, out: &mut Vec<char>) {
        put_number(out, *self, ';');
    }

    fn decode(text: &Vec<char>, at: usize) -> (r: Option<(Self, usize)>) {
        take_number(text, at, ';')
    }
}

impl Codec for u8 {
    open spec fn sound(v: u8) -> bool {
        true
    }

    open spec fn encoded(v: u8) -> Seq<char> {
        u64::encoded(v as u64)
    }

    open spec fn decoded(text: Seq<char>) -> Option<(u8, Seq<char>)> {
        match u64::decoded(text) {
            Some((n, rest)) => if n <= u8::MAX {
                Some((n as u8, rest))
            } else {
                None
            },
            None => None,
        }
    }

    proof fn lemma_round_trip(v: u8, rest: Seq<char>) {
        u64::lemma_round_trip(v as u64, rest);
    }

    fn encode(&self, out: &mut Vec<char>) {
        let n: u64 = *self as u64;
        n.encode(out);
    }

    fn decode(text: &Vec<char>, at: usize) -> (r: Option<(Self, usize)>) {
        match u64::decode(text, at) {
            Some((n, next)) => if n <= 255 {
                Some((n as u8, next))
            } else {
                None
            },
            None => None,
        }
    }
}

impl Codec for bool {
    open spec fn sound(v: bool) -> bool {
        true
    }

    open spec fn encoded(v: bool) -> Seq<char> {
        if v {
            seq!['t']
        } else {
            seq!['f']
        }
    }

    open spec fn decoded(text: Seq<char>) -> Option<(bool, Seq<char>)> {
        if text.len() == 0 {
            None
        } else if text[0] == 't' {
            Some((true, text.drop_first()))
        } else if text[0] == 'f' {
            Some((false, text.drop_first()))
        } else {
            None
        }
    }

    proof fn lemma_round_trip(v: bool, rest: Seq<char>) {
        assert((Self::encoded(v) + rest).drop_first() =~= rest);
    }

    fn encode(&self, out: &mut Vec<char>) {
        if *self {
            out.push('t');
        } else {
            out.push('f');
        }
        assert(out@ =~= old(out)@ + Self::encoded(*self));
    }

    fn decode(text: &Vec<char>, at: usize) -> (r: Option<(Self, usize)>) {
        if at >= text.len() {
            return None;
        }
        let c = text[at];
        assert(text@.skip(at as int)[0] == c);
        assert(text@.skip(at as int).drop_first() =~= text@.skip(at as int + 1));
        if c == 't' {
            Some((true, at + 1))
        } else if c == 'f' {
            Some((false, at + 1))
        } else {
            None
        }
    }
}

impl Codec for String {
    open spec fn sound(v: Seq<char>) -> bool {
        v.len() <= u64::MAX
    }

    open spec fn encoded(v: Seq<char>) -> Seq<char> {
        text_encoded(v)
    }

    open spec fn decoded(text: Seq<char>) -> Option<(Seq<char>, Seq<char>)> {
        text_decoded(text)
    }

    proof fn lemma_round_trip(v: Seq<char>, rest: Seq<char>) {
        let tail = v + rest;
        lemma_number_round_trip(v.len(), length_stop(), tail);
        assert(text_encoded(v) + rest =~= number_text(v.len(), length_stop()) + tail);
        assert(tail.take(v.len() as int) =~= v);
        assert(tail.skip(v.len() as int) =~= rest);
    }

    fn encode(&self, out: &mut Vec<char>) {
        let chars = chars_of(self.as_str());
        let n: usize = chars.len();
        put_number(out, n as u64, ':');
        let ghost head = out@;
        let mut i: usize = 0;
        while i < n
            invariant
                n == chars@.len(),
                i <= n,
                out@ == head + chars@.take(i as int),
            decreases n - i,
        {
            out.push(chars[i]);
            assert(out@ =~= head + chars@.take(i as int + 1));
            i += 1;
        }
        assert(chars@.take(n as int) =~= chars@);
        assert(out@ =~= old(out)@ + text_encoded(self@));
    }

    fn decode(text: &Vec<char>, at: usize) -> (r: Option<(Self, usize)>) {
        match take_number(text, at, ':') {
            Some((n, start)) => {
                if n > (text.len() - start) as u64 {
                    return None;
                }
                let end: usize = start + n as usize;
                let s = text_of(text, start, end);
                proof {
                    let rest = text@.skip(start as int);
                    assert(rest.take(n as int) =~= text@.subrange(start as int, end as int));
                    assert(rest.skip(n as int) =~= text@.skip(end as int));
                }
                Some((s, end))
            },
            None => None,
        }
    }
}

/// The text form of `value`.
pub fn to_text<T: Codec>(value: &T) -> (r: String)
    ensures
        r@ == T::encoded(value.deep_view()),
{
    let mut out: Vec<char> = Vec::new();
    value.encode(&mut out);
    assert(out@ =~= T::encoded(value.deep_view()));
    let n: usize = out.len();
    let r = text_of(&out, 0, n);
    assert(out@.subrange(0, n as int) =~= out@);
    r
}

/// The value that `text` is the text form of; nothing where `text` is not
/// the text form of a value, or something follows it.
pub fn from_text<T: Codec>(text: &str) -> (r: Option<T>)
    ensures
        match r {
            Some(value) => T::decoded(text@) == Some((value.deep_view(), Seq::<char>::empty())),
            None => !(T::decoded(text@) matches Some((_, rest)) && rest.len() == 0),
        },
{
    let chars = chars_of(text);
    assert(chars@.skip(0) =~= chars@);
    match T::decode(&chars, 0) {
        Some((value, next)) => {
            if next == chars.len() {
                assert(chars@.skip(next as int) =~= Seq::<char>::empty());
                Some(value)
            } else {
                None
            }
        },
        None => None,
    }
}

/// Reading the text form of a value gives the value back.
pub proof fn lemma_text_round_trip<T: Codec>(v: T::V)
    requires
        T::sound(v),
    ensures
        T::decoded(T::encoded(v)) == Some((v, Seq::<char>::empty())),
{
    T::lemma_round_trip(v, Seq::empty());
    assert(T::encoded(v) + Seq::<char>::empty() =~= T::encoded(v));
}

} // verus!
