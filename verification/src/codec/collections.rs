//! The text forms of optional values, lists and maps.

use crate::codec::{
    lemma_concat_assoc, lemma_number_round_trip, number_in, number_stop, number_text, put_number,
    take_number, Codec,
};
use crate::string_map::{
    distinct_keys, has_key, lemma_deep_bind, lemma_deep_keys, StringMap,
};
use vstd::prelude::*;

verus! {

impl<T: Codec> Codec for Option<T> {
    open spec fn sound(v: Option<T::V>) -> bool {
        match v {
            Some(x) => T::sound(x),
            None => true,
        }
    }

    open spec fn encoded(v: Option<T::V>) -> Seq<char> {
        match v {
            Some(x) => seq!['s'] + T::encoded(x),
            None => seq!['n'],
        }
    }

    open spec fn decoded(text: Seq<char>) -> Option<(Option<T::V>, Seq<char>)> {
        if text.len() == 0 {
            None
        } else if text[0] == 'n' {
            Some((None, text.drop_first()))
        } else if text[0] == 's' {
            match T::decoded(text.drop_first()) {
                Some((x, rest)) => Some((Some(x), rest)),
                None => None,
            }
        } else {
            None
        }
    }

    proof fn lemma_round_trip(v: Option<T::V>, rest: Seq<char>) {
        match v {
            Some(x) => {
                T::lemma_round_trip(x, rest);
                assert((Self::encoded(v) + rest).drop_first() =~= T::encoded(x) + rest);
            },
            None => {
                assert((Self::encoded(v) + rest).drop_first() =~= rest);
            },
        }
    }

    fn encode(&self, out: &mut Vec<char>) {
        match self {
            Some(x) => {
                out.push('s');
                let ghost head = out@;
                x.encode(out);
                assert(out@ =~= old(out)@ + Self::encoded(self.deep_view()));
            },
            None => {
                out.push('n');
                assert(out@ =~= old(out)@ + Self::encoded(self.deep_view()));
            },
        }
    }

    fn decode(text: &Vec<char>, at: usize) -> (r: Option<(Self, usize)>) {
        if at >= text.len() {
            return None;
        }
        let c = text[at];
        assert(text@.skip(at as int)[0] == c);
        assert(text@.skip(at as int).drop_first() =~= text@.skip(at as int + 1));
        if c == 'n' {
            Some((None, at + 1))
        } else if c == 's' {
            match T::decode(text, at + 1) {
                Some((x, next)) => Some((Some(x), next)),
                None => None,
            }
        } else {
            None
        }
    }
}

impl<A: Codec, B: Codec> Codec for (A, B) {
    open spec fn sound(v: (A::V, B::V)) -> bool {
        A::sound(v.0) && B::sound(v.1)
    }

    open spec fn encoded(v: (A::V, B::V)) -> Seq<char> {
        A::encoded(v.0) + B::encoded(v.1)
    }

    open spec fn decoded(text: Seq<char>) -> Option<((A::V, B::V), Seq<char>)> {
        match A::decoded(text) {
            Some((a, after)) => match B::decoded(after) {
                Some((b, rest)) => Some(((a, b), rest)),
                None => None,
            },
            None => None,
        }
    }

    proof fn lemma_round_trip(v: (A::V, B::V), rest: Seq<char>) {
        lemma_concat_assoc(A::encoded(v.0), B::encoded(v.1), rest);
        A::lemma_round_trip(v.0, B::encoded(v.1) + rest);
        B::lemma_round_trip(v.1, rest);
    }

    fn encode(&self, out: &mut Vec<char>) {
        let ghost before = out@;
        self.0.encode(out);
        self.1.encode(out);
        proof {
            lemma_concat_assoc(
                before,
                A::encoded(self.0.deep_view()),
                B::encoded(self.1.deep_view()),
            );
        }
    }

    fn decode(text: &Vec<char>, at: usize) -> (r: Option<(Self, usize)>) {
        let (a, after) = match A::decode(text, at) {
            Some(found) => found,
            None => {
                return None;
            },
        };
        match B::decode(text, after) {
            Some((b, next)) => Some(((a, b), next)),
            None => None,
        }
    }
}

/// The texts of `items`, one after the other.
pub open spec fn items_text<T: Codec>(items: Seq<T::V>) -> Seq<char>
    decreases items.len(),
{
    if items.len() == 0 {
        Seq::empty()
    } else {
        items_text::<T>(items.drop_last()) + T::encoded(items.last())
    }
}

/// The `count` items that `text` starts with, added to `acc`, and what
/// follows them.
pub open spec fn items_from<T: Codec>(text: Seq<char>, count: nat, acc: Seq<T::V>) -> Option<
    (Seq<T::V>, Seq<char>),
>
    decreases count,
{
    if count == 0 {
        Some((acc, text))
    } else {
        match T::decoded(text) {
            Some((x, rest)) => items_from::<T>(rest, (count - 1) as nat, acc.push(x)),
            None => None,
        }
    }
}

/// Every one of `items` is sound.
pub open spec fn all_sound<T: Codec>(items: Seq<T::V>) -> bool {
    forall|i: int| 0 <= i < items.len() ==> T::sound(#[trigger] items[i])
}

/// The texts of some items start with the text of the first.
pub proof fn lemma_items_text_front<T: Codec>(items: Seq<T::V>)
    requires
        items.len() > 0,
    ensures
        items_text::<T>(items) == T::encoded(items[0]) + items_text::<T>(items.drop_first()),
    decreases items.len(),
{
    if items.len() == 1 {
        assert(items.drop_last() =~= Seq::<T::V>::empty());
        assert(items.drop_first() =~= Seq::<T::V>::empty());
        assert(items_text::<T>(items) =~= T::encoded(items[0]) + items_text::<T>(
            items.drop_first(),
        ));
    } else {
        lemma_items_text_front::<T>(items.drop_last());
        assert(items.drop_last().drop_first() =~= items.drop_first().drop_last());
        assert(items.drop_first().last() == items.last());
        assert(items_text::<T>(items) =~= T::encoded(items[0]) + items_text::<T>(
            items.drop_first(),
        ));
    }
}

/// Reading the items that were written gives them back.
pub proof fn lemma_items_round_trip<T: Codec>(items: Seq<T::V>, acc: Seq<T::V>, rest: Seq<char>)
    requires
        all_sound::<T>(items),
    ensures
        items_from::<T>(items_text::<T>(items) + rest, items.len(), acc) == Some(
            (acc + items, rest),
        ),
    decreases items.len(),
{
    if items.len() == 0 {
        assert(items_text::<T>(items) + rest =~= rest);
        assert(acc + items =~= acc);
    } else {
        let tail = items.drop_first();
        lemma_items_text_front::<T>(items);
        let after = items_text::<T>(tail) + rest;
        assert(items_text::<T>(items) + rest =~= T::encoded(items[0]) + after);
        assert(T::sound(items[0]));
        T::lemma_round_trip(items[0], after);
        assert forall|i: int| 0 <= i < tail.len() implies T::sound(#[trigger] tail[i]) by {
            assert(tail[i] == items[i + 1]);
        }
        lemma_items_round_trip::<T>(tail, acc.push(items[0]), rest);
        assert(acc.push(items[0]) + tail =~= acc + items);
    }
}

impl<T: Codec> Codec for Vec<T> {
    open spec fn sound(v: Seq<T::V>) -> bool {
        v.len() <= u64::MAX && all_sound::<T>(v)
    }

    open spec fn encoded(v: Seq<T::V>) -> Seq<char> {
        number_text(v.len(), number_stop()) + items_text::<T>(v)
    }

    open spec fn decoded(text: Seq<char>) -> Option<(Seq<T::V>, Seq<char>)> {
        match number_in(text, number_stop()) {
            Some((n, rest)) => items_from::<T>(rest, n, Seq::empty()),
            None => None,
        }
    }

    proof fn lemma_round_trip(v: Seq<T::V>, rest: Seq<char>) {
        let tail = items_text::<T>(v) + rest;
        lemma_number_round_trip(v.len(), number_stop(), tail);
        assert(Self::encoded(v) + rest =~= number_text(v.len(), number_stop()) + tail);
        lemma_items_round_trip::<T>(v, Seq::empty(), rest);
        assert(Seq::<T::V>::empty() + v =~= v);
    }

    fn encode(&self, out: &mut Vec<char>) {
        let n: usize = self.len();
        put_number(out, n as u64, ';');
        let ghost head = out@;
        let ghost view = self.deep_view();
        let mut i: usize = 0;
        assert(view.take(0) =~= Seq::<T::V>::empty());
        assert(out@ =~= head + items_text::<T>(view.take(0)));
        while i < n
            invariant
                n == self@.len(),
                view == self.deep_view(),
                i <= n,
                out@ == head + items_text::<T>(view.take(i as int)),
                forall|j: int| 0 <= j < i ==> T::sound(#[trigger] view[j]),
            decreases n - i,
        {
            self[i].encode(out);
            proof {
                let next = view.take(i as int + 1);
                assert(next.drop_last() =~= view.take(i as int));
                assert(next.last() == self@[i as int].deep_view());
                assert(out@ =~= head + items_text::<T>(next));
            }
            i += 1;
        }
        assert(view.take(n as int) =~= view);
        assert(out@ =~= old(out)@ + Self::encoded(view));
    }

    fn decode(text: &Vec<char>, at: usize) -> (r: Option<(Self, usize)>) {
        let (count, start) = match take_number(text, at, ';') {
            Some(found) => found,
            None => {
                return None;
            },
        };
        let mut items: Vec<T> = Vec::new();
        let mut next: usize = start;
        let mut left: u64 = count;
        assert(items.deep_view() =~= Seq::<T::V>::empty());
        while left > 0
            invariant
                at <= start <= next <= text@.len(),
                number_in(text@.skip(at as int), number_stop()) == Some(
                    (count as nat, text@.skip(start as int)),
                ),
                forall|j: int| 0 <= j < items@.len() ==> T::sound(#[trigger] items.deep_view()[j]),
                items@.len() + left == count,
                items_from::<T>(text@.skip(start as int), count as nat, Seq::empty()) == items_from::<
                    T,
                >(text@.skip(next as int), left as nat, items.deep_view()),
            decreases left,
        {
            match T::decode(text, next) {
                Some((item, after)) => {
                    let ghost before = items.deep_view();
                    items.push(item);
                    assert(items.deep_view() =~= before.push(item.deep_view()));
                    next = after;
                    left = left - 1;
                },
                None => {
                    return None;
                },
            }
        }
        Some((items, next))
    }
}

/// The texts of `entries`, each a key and a value, one after the other.
pub open spec fn entries_text<V: Codec>(entries: Seq<(Seq<char>, V::V)>) -> Seq<char>
    decreases entries.len(),
{
    if entries.len() == 0 {
        Seq::empty()
    } else {
        entries_text::<V>(entries.drop_last()) + String::encoded(entries.last().0) + V::encoded(
            entries.last().1,
        )
    }
}

/// The `count` entries that `text` starts with, added to `acc`, and what
/// follows them; nothing where a key occurs twice.
pub open spec fn entries_from<V: Codec>(
    text: Seq<char>,
    count: nat,
    acc: Seq<(Seq<char>, V::V)>,
) -> Option<(Seq<(Seq<char>, V::V)>, Seq<char>)>
    decreases count,
{
    if count == 0 {
        Some((acc, text))
    } else {
        match String::decoded(text) {
            Some((key, after_key)) => match V::decoded(after_key) {
                Some((value, rest)) => if has_key(acc, key) {
                    None
                } else {
                    entries_from::<V>(rest, (count - 1) as nat, acc.push((key, value)))
                },
                None => None,
            },
            None => None,
        }
    }
}

/// Every key and every value of `entries` is sound.
pub open spec fn entries_sound<V: Codec>(entries: Seq<(Seq<char>, V::V)>) -> bool {
    forall|i: int|
        0 <= i < entries.len() ==> String::sound((#[trigger] entries[i]).0) && V::sound(
            entries[i].1,
        )
}

/// The texts of some entries start with the text of the first.
pub proof fn lemma_entries_text_front<V: Codec>(entries: Seq<(Seq<char>, V::V)>)
    requires
        entries.len() > 0,
    ensures
        entries_text::<V>(entries) == String::encoded(entries[0].0) + V::encoded(entries[0].1)
            + entries_text::<V>(entries.drop_first()),
    decreases entries.len(),
{
    if entries.len() == 1 {
        assert(entries.drop_last() =~= Seq::<(Seq<char>, V::V)>::empty());
        assert(entries.drop_first() =~= Seq::<(Seq<char>, V::V)>::empty());
        assert(entries_text::<V>(entries) =~= String::encoded(entries[0].0) + V::encoded(
            entries[0].1,
        ) + entries_text::<V>(entries.drop_first()));
    } else {
        lemma_entries_text_front::<V>(entries.drop_last());
        assert(entries.drop_last().drop_first() =~= entries.drop_first().drop_last());
        assert(entries.drop_first().last() == entries.last());
        assert(entries_text::<V>(entries) =~= String::encoded(entries[0].0) + V::encoded(
            entries[0].1,
        ) + entries_text::<V>(entries.drop_first()));
    }
}

/// Reading the entries that were written gives them back, where no key
/// occurs twice.
pub proof fn lemma_entries_round_trip<V: Codec>(
    entries: Seq<(Seq<char>, V::V)>,
    acc: Seq<(Seq<char>, V::V)>,
    rest: Seq<char>,
)
    requires
        entries_sound::<V>(entries),
        distinct_keys(acc + entries),
    ensures
        entries_from::<V>(entries_text::<V>(entries) + rest, entries.len(), acc) == Some(
            (acc + entries, rest),
        ),
    decreases entries.len(),
{
    if entries.len() == 0 {
        assert(entries_text::<V>(entries) + rest =~= rest);
        assert(acc + entries =~= acc);
    } else {
        let tail = entries.drop_first();
        let key = entries[0].0;
        let value = entries[0].1;
        lemma_entries_text_front::<V>(entries);
        let after = entries_text::<V>(tail) + rest;
        let after_key = V::encoded(value) + after;
        assert(entries_text::<V>(entries) + rest =~= String::encoded(key) + after_key);
        assert(String::sound(key) && V::sound(value));
        String::lemma_round_trip(key, after_key);
        V::lemma_round_trip(value, after);
        let all = acc + entries;
        if has_key(acc, key) {
            let j = crate::string_map::key_index(acc, key);
            assert(all[j].0 == key);
            assert(all[acc.len() as int].0 == key);
        }
        assert forall|i: int| 0 <= i < tail.len() implies String::sound((#[trigger] tail[i]).0)
            && V::sound(tail[i].1) by {
            assert(tail[i] == entries[i + 1]);
        }
        assert(acc.push((key, value)) + tail =~= all);
        lemma_entries_round_trip::<V>(tail, acc.push((key, value)), rest);
    }
}

impl<V: Codec> Codec for StringMap<V> {
    open spec fn sound(v: Seq<(Seq<char>, V::V)>) -> bool {
        v.len() <= u64::MAX && distinct_keys(v) && entries_sound::<V>(v)
    }

    open spec fn encoded(v: Seq<(Seq<char>, V::V)>) -> Seq<char> {
        number_text(v.len(), number_stop()) + entries_text::<V>(v)
    }

    open spec fn decoded(text: Seq<char>) -> Option<(Seq<(Seq<char>, V::V)>, Seq<char>)> {
        match number_in(text, number_stop()) {
            Some((n, rest)) => entries_from::<V>(rest, n, Seq::empty()),
            None => None,
        }
    }

    proof fn lemma_round_trip(v: Seq<(Seq<char>, V::V)>, rest: Seq<char>) {
        let tail = entries_text::<V>(v) + rest;
        lemma_number_round_trip(v.len(), number_stop(), tail);
        assert(Self::encoded(v) + rest =~= number_text(v.len(), number_stop()) + tail);
        assert(Seq::<(Seq<char>, V::V)>::empty() + v =~= v);
        lemma_entries_round_trip::<V>(v, Seq::empty(), rest);
    }

    fn encode(&self, out: &mut Vec<char>) {
        let n: usize = self.len();
        put_number(out, n as u64, ';');
        let ghost head = out@;
        let ghost view = self.deep_view();
        proof {
            lemma_deep_keys(self@, Seq::empty());
        }
        let mut i: usize = 0;
        assert(view.take(0) =~= Seq::<(Seq<char>, V::V)>::empty());
        assert(out@ =~= head + entries_text::<V>(view.take(0)));
        while i < n
            invariant
                n == self@.len(),
                view == self.deep_view(),
                i <= n,
                out@ == head + entries_text::<V>(view.take(i as int)),
                forall|j: int|
                    0 <= j < i ==> String::sound((#[trigger] view[j]).0) && V::sound(view[j].1),
            decreases n - i,
        {
            let ghost before = out@;
            self.key_at(i).encode(out);
            self.value_at(i).encode(out);
            proof {
                let next = view.take(i as int + 1);
                assert(next.drop_last() =~= view.take(i as int));
                assert(next.last() == view[i as int]);
                assert(view[i as int] == (self@[i as int].0, self@[i as int].1.deep_view()));
                assert(out@ =~= head + entries_text::<V>(next));
            }
            i += 1;
        }
        assert(view.take(n as int) =~= view);
        assert(out@ =~= old(out)@ + Self::encoded(view));
    }

    fn decode(text: &Vec<char>, at: usize) -> (r: Option<(Self, usize)>) {
        let (count, start) = match take_number(text, at, ';') {
            Some(found) => found,
            None => {
                return None;
            },
        };
        let mut map: StringMap<V> = StringMap::new();
        let mut next: usize = start;
        let mut left: u64 = count;
        assert(map.deep_view() =~= Seq::<(Seq<char>, V::V)>::empty());
        while left > 0
            invariant
                at <= start <= next <= text@.len(),
                number_in(text@.skip(at as int), number_stop()) == Some(
                    (count as nat, text@.skip(start as int)),
                ),
                forall|j: int|
                    0 <= j < map@.len() ==> String::sound((#[trigger] map.deep_view()[j]).0)
                        && V::sound(map.deep_view()[j].1),
                map@.len() + left == count,
                entries_from::<V>(text@.skip(start as int), count as nat, Seq::empty())
                    == entries_from::<V>(text@.skip(next as int), left as nat, map.deep_view()),
            decreases left,
        {
            let (key, after_key) = match String::decode(text, next) {
                Some(found) => found,
                None => {
                    return None;
                },
            };
            let (value, after) = match V::decode(text, after_key) {
                Some(found) => found,
                None => {
                    return None;
                },
            };
            proof {
                use_type_invariant(&map);
                lemma_deep_keys(map@, key@);
                lemma_deep_bind(map@, key@, value);
            }
            if map.contains_key(&key) {
                return None;
            }
            let ghost before = map.deep_view();
            map.insert(key, value);
            assert(map.deep_view() =~= before.push((key@, value.deep_view())));
            next = after;
            left = left - 1;
        }
        proof {
            use_type_invariant(&map);
            lemma_deep_keys(map@, Seq::empty());
        }
        Some((map, next))
    }
}

} // verus!
