//! The streams in a directory of captures.

use vstd::prelude::*;
use vstd::string::StrSliceExecFns;

verus! {

/// The slug of a capture by its file name: what stands before `.ts`. A name
/// that begins with its only dot has none.
pub open spec fn slug_in(name: Seq<char>) -> Option<Seq<char>> {
    let n = name.len();
    if n > 3 && name[n - 3] == '.' && name[n - 2] == 't' && name[n - 1] == 's' {
        Some(name.take(n - 3))
    } else {
        None
    }
}

/// The slug of a capture by its file name.
pub fn slug_of(name: &str) -> (slug: Option<String>)
    ensures
        match slug {
            Some(s) => slug_in(name@) == Some(s@),
            None => slug_in(name@) is None,
        },
{
    let n: usize = name.unicode_len();
    if n > 3 && name.get_char(n - 3) == '.' && name.get_char(n - 2) == 't' && name.get_char(n - 1)
        == 's' {
        let stem: &str = name.substring_char(0, n - 3);
        assert(stem@ =~= name@.take(n - 3));
        Some(stem.to_string())
    } else {
        None
    }
}

/// Whether `a` comes before `b` in the order of characters, or is equal to it.
pub open spec fn text_le(a: Seq<char>, b: Seq<char>) -> bool
    decreases a.len(),
{
    if a.len() == 0 {
        true
    } else if b.len() == 0 {
        false
    } else if a[0] != b[0] {
        (a[0] as u32) < (b[0] as u32)
    } else {
        text_le(a.drop_first(), b.drop_first())
    }
}

fn text_le_from(a: &str, b: &str) -> (le: bool)
    ensures
        le == text_le(a@, b@),
{
    let a_len: usize = a.unicode_len();
    let b_len: usize = b.unicode_len();
    let mut i: usize = 0;
    assert(a@.skip(0) =~= a@);
    assert(b@.skip(0) =~= b@);
    while i < a_len && i < b_len
        invariant
            a_len == a@.len(),
            b_len == b@.len(),
            i <= a_len,
            i <= b_len,
            text_le(a@, b@) == text_le(a@.skip(i as int), b@.skip(i as int)),
        decreases a_len - i,
    {
        let x: char = a.get_char(i);
        let y: char = b.get_char(i);
        proof {
            assert(a@.skip(i as int)[0] == x);
            assert(b@.skip(i as int)[0] == y);
            assert(a@.skip(i as int).drop_first() =~= a@.skip(i + 1));
            assert(b@.skip(i as int).drop_first() =~= b@.skip(i + 1));
        }
        if x != y {
            return (x as u32) < (y as u32);
        }
        i = i + 1;
    }
    i >= a_len
}

/// Whether a list is in the order of characters.
pub open spec fn in_text_order(list: Seq<Seq<char>>) -> bool {
    forall|i: int, j: int|
        0 <= i <= j < list.len() ==> text_le(#[trigger] list[i], #[trigger] list[j])
}

/// Texts as mathematical values.
pub open spec fn texts(list: Seq<String>) -> Seq<Seq<char>> {
    list.map_values(|s: String| s@)
}

/// The slugs among the first names, in their order.
pub open spec fn slugs_in(names: Seq<Seq<char>>) -> Seq<Seq<char>>
    decreases names.len(),
{
    if names.len() == 0 {
        Seq::empty()
    } else {
        match slug_in(names.last()) {
            Some(slug) => slugs_in(names.drop_last()).push(slug),
            None => slugs_in(names.drop_last()),
        }
    }
}

proof fn lemma_text_le_reflexive(a: Seq<char>)
    ensures
        text_le(a, a),
    decreases a.len(),
{
    if a.len() > 0 {
        lemma_text_le_reflexive(a.drop_first());
    }
}

proof fn lemma_codes_differ(x: char, y: char)
    requires
        x != y,
    ensures
        x as u32 != y as u32,
{
}

proof fn lemma_text_le_total(a: Seq<char>, b: Seq<char>)
    ensures
        text_le(a, b) || text_le(b, a),
    decreases a.len(),
{
    if a.len() > 0 && b.len() > 0 {
        if a[0] == b[0] {
            lemma_text_le_total(a.drop_first(), b.drop_first());
        } else {
            lemma_codes_differ(a[0], b[0]);
        }
    }
}

proof fn lemma_text_le_transitive(a: Seq<char>, b: Seq<char>, c: Seq<char>)
    requires
        text_le(a, b),
        text_le(b, c),
    ensures
        text_le(a, c),
    decreases a.len(),
{
    if a.len() > 0 && b.len() > 0 && c.len() > 0 && a[0] == b[0] && b[0] == c[0] {
        lemma_text_le_transitive(a.drop_first(), b.drop_first(), c.drop_first());
    }
}

proof fn lemma_insert_sorted(list: Seq<Seq<char>>, text: Seq<char>, at: int)
    requires
        0 <= at <= list.len(),
        in_text_order(list),
        at > 0 ==> text_le(list[at - 1], text),
        at < list.len() ==> text_le(text, list[at]),
    ensures
        in_text_order(list.insert(at, text)),
        list.insert(at, text).to_multiset() == list.to_multiset().insert(text),
{
    broadcast use vstd::seq_lib::group_to_multiset_ensures;

    let after = list.insert(at, text);
    assert forall|i: int, j: int| 0 <= i <= j < after.len() implies text_le(
        #[trigger] after[i],
        #[trigger] after[j],
    ) by {
        if i == at && j == at {
            lemma_text_le_reflexive(text);
        } else if i < at && j == at {
            assert(text_le(list[i], list[at - 1]));
            lemma_text_le_transitive(list[i], list[at - 1], text);
        } else if i == at && j > at {
            assert(text_le(list[at], list[j - 1]));
            lemma_text_le_transitive(text, list[at], list[j - 1]);
        } else if j < at {
            assert(text_le(list[i], list[j]));
        } else if i < at {
            assert(text_le(list[i], list[j - 1]));
        } else {
            assert(text_le(list[i - 1], list[j - 1]));
        }
    }
}

/// The streams among the files of a directory: the slug of every capture,
/// sorted.
pub fn slugs(names: &Vec<String>) -> (slugs: Vec<String>)
    ensures
        in_text_order(texts(slugs@)),
        texts(slugs@).to_multiset() == slugs_in(texts(names@)).to_multiset(),
{
    let mut slugs: Vec<String> = Vec::new();
    let ghost all = texts(names@);
    let mut i: usize = 0;
    proof {
        assert(all.take(0) =~= Seq::<Seq<char>>::empty());
        assert(texts(slugs@) =~= slugs_in(all.take(0)));
    }
    while i < names.len()
        invariant
            i <= names@.len(),
            all == texts(names@),
            in_text_order(texts(slugs@)),
            texts(slugs@).to_multiset() == slugs_in(all.take(i as int)).to_multiset(),
        decreases names@.len() - i,
    {
        proof {
            assert(all.take(i + 1).drop_last() =~= all.take(i as int));
            assert(all.take(i + 1).last() == names@[i as int]@);
        }
        if let Some(slug) = slug_of(names[i].as_str()) {
            let ghost before = texts(slugs@);
            let ghost text = slug@;
            let mut at: usize = slugs.len();
            while at > 0 && !text_le_from(slugs[at - 1].as_str(), slug.as_str())
                invariant
                    at <= slugs@.len(),
                    before == texts(slugs@),
                    text == slug@,
                    at < slugs@.len() ==> text_le(text, before[at as int]),
                decreases at,
            {
                proof {
                    lemma_text_le_total(before[at - 1], text);
                }
                at = at - 1;
            }
            slugs.insert(at, slug);
            proof {
                broadcast use vstd::seq_lib::group_to_multiset_ensures;

                lemma_insert_sorted(before, text, at as int);
                assert(texts(slugs@) =~= before.insert(at as int, text));
            }
        }
        i = i + 1;
    }
    assert(all.take(i as int) =~= all);
    slugs
}

proof fn lemma_text_le_antisymmetric(a: Seq<char>, b: Seq<char>)
    requires
        text_le(a, b),
        text_le(b, a),
    ensures
        a == b,
    decreases a.len(),
{
    if a.len() > 0 && b.len() > 0 {
        assert(a[0] == b[0]);
        lemma_text_le_antisymmetric(a.drop_first(), b.drop_first());
        assert(a =~= seq![a[0]] + a.drop_first());
        assert(b =~= seq![b[0]] + b.drop_first());
    } else {
        assert(a =~= b);
    }
}

/// The order of characters is total: of two different texts exactly one comes
/// first.
pub proof fn text_order_is_total(a: Seq<char>, b: Seq<char>)
    requires
        a != b,
    ensures
        text_le(a, b) != text_le(b, a),
{
    lemma_text_le_total(a, b);
    if text_le(a, b) && text_le(b, a) {
        lemma_text_le_antisymmetric(a, b);
    }
}

} // verus!
