//! Building the router's texts.

use vstd::prelude::*;

verus! {

/// Every part of `parts`, each with `separator` in front of it.
pub open spec fn each_after(parts: Seq<Seq<char>>, separator: Seq<char>) -> Seq<char>
    decreases parts.len(),
{
    if parts.len() == 0 {
        Seq::empty()
    } else {
        each_after(parts.drop_last(), separator) + separator + parts.last()
    }
}

/// The parts in their order, with `separator` between neighbours.
pub open spec fn joined(parts: Seq<Seq<char>>, separator: Seq<char>) -> Seq<char> {
    if parts.len() == 0 {
        Seq::empty()
    } else {
        parts.first() + each_after(parts.drop_first(), separator)
    }
}

/// The texts that the strings of a sequence hold.
pub open spec fn texts(strings: Seq<String>) -> Seq<Seq<char>> {
    Seq::new(strings.len(), |i: int| strings[i]@)
}

/// `middle` between `before` and `after`.
pub fn enclose(before: &str, middle: &str, after: &str) -> (text: String)
    ensures
        text@ == before@ + middle@ + after@,
{
    let mut text: String = before.to_owned();
    text.append(middle);
    text.append(after);
    text
}

/// Joins `parts` with `separator` between neighbours.
pub fn join(parts: &Vec<String>, separator: &str) -> (text: String)
    ensures
        text@ == joined(texts(parts@), separator@),
{
    let mut text: String = String::new();
    if parts.len() == 0 {
        return text;
    }
    text.append(parts[0].as_str());
    let ghost rest = texts(parts@).drop_first();
    let mut i: usize = 1;
    assert(rest.take(0) =~= Seq::<Seq<char>>::empty());
    assert(text@ =~= parts@[0]@);
    while i < parts.len()
        invariant
            1 <= i <= parts.len(),
            rest == texts(parts@).drop_first(),
            text@ == parts@[0]@ + each_after(rest.take(i - 1), separator@),
        decreases parts.len() - i,
    {
        text.append(separator);
        text.append(parts[i].as_str());
        proof {
            let longer = rest.take(i as int);
            assert(longer.drop_last() =~= rest.take(i - 1));
            assert(longer.last() == parts@[i as int]@);
            assert(text@ =~= parts@[0]@ + each_after(longer, separator@));
        }
        i = i + 1;
    }
    assert(rest.take(i - 1) =~= rest);
    text
}

/// Parts in two runs come one after the other.
proof fn lemma_each_after_adds_up(
    one: Seq<Seq<char>>,
    two: Seq<Seq<char>>,
    separator: Seq<char>,
)
    ensures
        each_after(one + two, separator) == each_after(one, separator) + each_after(two, separator),
    decreases two.len(),
{
    if two.len() == 0 {
        assert(one + two =~= one);
        assert(each_after(one, separator) + each_after(two, separator) =~= each_after(
            one,
            separator,
        ));
    } else {
        lemma_each_after_adds_up(one, two.drop_last(), separator);
        assert((one + two).drop_last() =~= one + two.drop_last());
        assert((one + two).last() == two.last());
        assert(each_after(one + two, separator) =~= each_after(one, separator) + each_after(
            two,
            separator,
        ));
    }
}

/// A text that is joined alone is itself, whatever the separator, and no texts make an empty
/// one.
pub proof fn law_one_text_is_joined_to_itself(part: Seq<char>, separator: Seq<char>)
    ensures
        joined(seq![part], separator) == part,
        joined(Seq::<Seq<char>>::empty(), separator).len() == 0,
{
    assert(seq![part].drop_first() =~= Seq::<Seq<char>>::empty());
    assert(joined(seq![part], separator) =~= part);
}

/// Two runs of texts are joined by joining each and putting the separator once between them.
pub proof fn law_joined_texts_add_up(
    one: Seq<Seq<char>>,
    two: Seq<Seq<char>>,
    separator: Seq<char>,
)
    requires
        one.len() > 0,
        two.len() > 0,
    ensures
        joined(one + two, separator) == joined(one, separator) + separator + joined(
            two,
            separator,
        ),
{
    let head = seq![two.first()];
    let tail = two.drop_first();
    assert(two =~= head + tail);
    assert((one + two).drop_first() =~= one.drop_first() + two);
    lemma_each_after_adds_up(one.drop_first(), two, separator);
    lemma_each_after_adds_up(head, tail, separator);
    assert(head.drop_last() =~= Seq::<Seq<char>>::empty());
    assert(each_after(head.drop_last(), separator) == Seq::<char>::empty());
    assert(each_after(head, separator) =~= separator + two.first());
    assert(joined(one + two, separator) =~= joined(one, separator) + separator + joined(
        two,
        separator,
    ));
}

/// A joined text holds each of its parts in whole.
pub proof fn law_joined_texts_hold_every_part(
    parts: Seq<Seq<char>>,
    separator: Seq<char>,
    i: int,
)
    requires
        0 <= i < parts.len(),
    ensures
        exists|at: int|
            {
                &&& 0 <= at
                &&& at + parts[i].len() <= joined(parts, separator).len()
                &&& #[trigger] joined(parts, separator).subrange(at, at + parts[i].len())
                    == parts[i]
            },
    decreases parts.len(),
{
    let whole = joined(parts, separator);
    let last = parts.last();
    law_one_text_is_joined_to_itself(last, separator);
    if parts.len() == 1 {
        assert(parts =~= seq![last]);
        assert(whole.subrange(0int, 0int + parts[i].len()) =~= parts[i]);
    } else {
        let fewer = parts.drop_last();
        let front = joined(fewer, separator);
        assert(parts =~= fewer + seq![last]);
        law_joined_texts_add_up(fewer, seq![last], separator);
        assert(whole == front + separator + last);
        if i == parts.len() - 1 {
            let at = whole.len() - last.len();
            assert(whole.subrange(at, at + parts[i].len()) =~= parts[i]);
        } else {
            law_joined_texts_hold_every_part(fewer, separator, i);
            let at = choose|at: int|
                {
                    &&& 0 <= at
                    &&& at + fewer[i].len() <= front.len()
                    &&& #[trigger] front.subrange(at, at + fewer[i].len()) == fewer[i]
                };
            assert(whole.subrange(at, at + parts[i].len()) =~= front.subrange(
                at,
                at + fewer[i].len(),
            ));
        }
    }
}

/// The texts of strings are taken one for one, in the order of the strings.
pub proof fn law_texts_are_those_of_the_strings(strings: Seq<String>, i: int)
    ensures
        texts(strings).len() == strings.len(),
        0 <= i < strings.len() ==> texts(strings)[i] == strings[i]@,
{
}

} // verus!
