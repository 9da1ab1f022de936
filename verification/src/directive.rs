//! The directive that a generated model carries to name its capabilities,
//! and how a list of derive names becomes one.
//!
//! A list is rendered without repetitions, each name where it first occurs.
//! Enum models get the same list without the serialization names, and no
//! directive at all where that leaves nothing.

use crate::text::{contains, contains_text, name_seq, occurs_at};
use itertools::Itertools;
use vstd::prelude::*;

verus! {

/// `s` without repetitions: each element stays where it first occurs.
pub open spec fn unique<A>(s: Seq<A>) -> Seq<A>
    decreases s.len(),
{
    if s.len() == 0 {
        s
    } else {
        let front = unique(s.drop_last());
        if front.contains(s.last()) {
            front
        } else {
            front.push(s.last())
        }
    }
}

/// Whether `a` occurs in `s` before the first occurrence of `b`, if `b` has one.
pub open spec fn precedes<A>(s: Seq<A>, a: A, b: A) -> bool {
    exists|p: int| 0 <= p < s.len() && s[p] == a && forall|q: int| 0 <= q <= p ==> s[q] != b
}

/// Whether `name` names a serialization capability: it holds the text
/// `erialize` or the text `Deserialize`.
pub open spec fn is_serialization_name(name: Seq<char>) -> bool {
    contains_text(name, "erialize"@) || contains_text(name, "Deserialize"@)
}

/// The names of `names` that name no serialization capability, in order.
pub open spec fn without_serialization(names: Seq<Seq<char>>) -> Seq<Seq<char>> {
    names.filter(|name: Seq<char>| !is_serialization_name(name))
}

/// The names that the directive of a struct model lists.
pub open spec fn model_names(list: Seq<Seq<char>>) -> Seq<Seq<char>> {
    unique(list)
}

/// The names that the directive of an enum model lists.
pub open spec fn enum_names(list: Seq<Seq<char>>) -> Seq<Seq<char>> {
    without_serialization(unique(list))
}

/// `unique(s)` holds nothing twice, holds exactly the elements of `s`, and
/// orders them as their first occurrences in `s` are ordered.
pub proof fn lemma_unique<A>(s: Seq<A>)
    ensures
        unique(s).no_duplicates(),
        forall|x: A| unique(s).contains(x) <==> s.contains(x),
        forall|i: int, j: int|
            0 <= i < j < unique(s).len() ==> precedes(s, #[trigger] unique(s)[i], #[trigger] unique(
                s,
            )[j]),
    decreases s.len(),
{
    let u = unique(s);
    if s.len() == 0 {
    } else {
        let front = s.drop_last();
        let last = s.last();
        let uf = unique(front);
        lemma_unique(front);
        assert forall|x: A| u.contains(x) <==> s.contains(x) by {
            if s.contains(x) {
                let p = choose|p: int| 0 <= p < s.len() && s[p] == x;
                if p < front.len() {
                    assert(front[p] == x);
                    assert(front.contains(x));
                    assert(uf.contains(x));
                    let k = choose|k: int| 0 <= k < uf.len() && uf[k] == x;
                    assert(u[k] == x);
                } else if uf.contains(last) {
                } else {
                    assert(u[uf.len() as int] == x);
                }
            }
            if u.contains(x) {
                let k = choose|k: int| 0 <= k < u.len() && u[k] == x;
                if k < uf.len() {
                    assert(uf[k] == x);
                    assert(front.contains(x));
                    let p = choose|p: int| 0 <= p < front.len() && front[p] == x;
                    assert(s[p] == x);
                } else {
                    assert(s[s.len() - 1] == x);
                }
            }
        }
        assert forall|i: int, j: int| 0 <= i < j < u.len() implies precedes(
            s,
            #[trigger] u[i],
            #[trigger] u[j],
        ) by {
            if j < uf.len() {
                assert(precedes(front, uf[i], uf[j]));
                let p = choose|p: int|
                    0 <= p < front.len() && front[p] == uf[i] && forall|q: int|
                        0 <= q <= p ==> front[q] != uf[j];
                assert(s[p] == u[i]);
                assert forall|q: int| 0 <= q <= p implies s[q] != u[j] by {
                    assert(front[q] != uf[j]);
                }
            } else {
                assert(u[j] == last);
                assert(!uf.contains(last));
                assert(uf.contains(uf[i]));
                assert(front.contains(uf[i]));
                let p = choose|p: int| 0 <= p < front.len() && front[p] == uf[i];
                assert(s[p] == u[i]);
                assert forall|q: int| 0 <= q <= p implies s[q] != u[j] by {
                    if s[q] == last {
                        assert(front[q] == last);
                        assert(front.contains(last));
                    }
                }
            }
        }
    }
}

/// The first element of a sequence is the first element of `unique` of it.
pub proof fn lemma_unique_head<A>(s: Seq<A>)
    requires
        s.len() > 0,
    ensures
        unique(s).len() > 0,
        unique(s)[0] == s[0],
    decreases s.len(),
{
    if s.len() > 1 {
        lemma_unique_head(s.drop_last());
    } else {
        assert(unique(s.drop_last()) =~= Seq::<A>::empty());
    }
}

/// A name that holds `Deserialize` holds `erialize`.
pub proof fn lemma_deserialize_holds_erialize(name: Seq<char>)
    requires
        contains_text(name, "Deserialize"@),
    ensures
        contains_text(name, "erialize"@),
{
    reveal_strlit("Deserialize");
    reveal_strlit("erialize");
    let long = "Deserialize"@;
    let short = "erialize"@;
    let i = choose|i: int| occurs_at(name, long, i);
    let part = name.subrange(i, i + long.len());
    assert(name.subrange(i + 3, i + 3 + short.len()) =~= part.subrange(3, 11));
    assert(long.subrange(3, 11) =~= short);
    assert(occurs_at(name, short, i + 3));
}

/// No name that the directive of an enum model lists names a serialization
/// capability, and each of them stands in `list`.
pub proof fn lemma_enum_names(list: Seq<Seq<char>>)
    ensures
        forall|i: int|
            0 <= i < enum_names(list).len() ==> {
                &&& !contains_text(#[trigger] enum_names(list)[i], "erialize"@)
                &&& !contains_text(enum_names(list)[i], "Deserialize"@)
                &&& list.contains(enum_names(list)[i])
            },
        enum_names(list).no_duplicates(),
{
    let u = unique(list);
    let pred = |name: Seq<char>| !is_serialization_name(name);
    lemma_unique(list);
    lemma_filter_of(u, pred);
}

/// The directive of an enum model is empty exactly when every name of the
/// list names a serialization capability; a directive that is not empty
/// lists at least one name. The empty directive has no text.
pub proof fn lemma_enum_directive(list: Seq<Seq<char>>)
    ensures
        enum_directive_view(list) is Empty <==> forall|i: int|
            0 <= i < list.len() ==> is_serialization_name(#[trigger] list[i]),
        enum_directive_view(list) matches DirectiveView::Derive(names) ==> names.len() >= 1
            && names == enum_names(list),
        directive_text(DirectiveView::Empty).len() == 0,
{
    let u = unique(list);
    let pred = |name: Seq<char>| !is_serialization_name(name);
    lemma_unique(list);
    lemma_filter_of(u, pred);
    if enum_names(list).len() == 0 {
        assert forall|i: int| 0 <= i < list.len() implies is_serialization_name(
            #[trigger] list[i],
        ) by {
            assert(list.contains(list[i]));
            assert(u.contains(list[i]));
            let k = choose|k: int| 0 <= k < u.len() && u[k] == list[i];
            if pred(u[k]) {
                assert(u.filter(pred).contains(u[k]));
            }
        }
    } else {
        let name = enum_names(list)[0];
        assert(pred(name) && u.contains(name));
        assert(list.contains(name));
    }
}

/// A filtered sequence holds exactly the elements of the sequence that meet
/// the predicate, and repeats nothing that the sequence does not repeat.
proof fn lemma_filter_of<A>(s: Seq<A>, pred: spec_fn(A) -> bool)
    ensures
        forall|i: int|
            0 <= i < s.filter(pred).len() ==> pred(#[trigger] s.filter(pred)[i]) && s.contains(
                s.filter(pred)[i],
            ),
        forall|i: int| 0 <= i < s.len() && pred(#[trigger] s[i]) ==> s.filter(pred).contains(s[i]),
        s.no_duplicates() ==> s.filter(pred).no_duplicates(),
    decreases s.len(),
{
    reveal(Seq::filter);
    if s.len() > 0 {
        let front = s.drop_last();
        lemma_filter_of(front, pred);
        let f = s.filter(pred);
        let ff = front.filter(pred);
        assert forall|i: int| 0 <= i < s.len() && pred(#[trigger] s[i]) implies f.contains(
            s[i],
        ) by {
            if i < front.len() {
                assert(front[i] == s[i]);
                assert(ff.contains(front[i]));
                let k = choose|k: int| 0 <= k < ff.len() && ff[k] == front[i];
                assert(f[k] == s[i]);
            } else {
                assert(f[f.len() - 1] == s[i]);
            }
        }
        assert forall|i: int| 0 <= i < f.len() implies pred(#[trigger] f[i]) && s.contains(
            f[i],
        ) by {
            if i < ff.len() {
                assert(front.contains(ff[i]));
                let p = choose|p: int| 0 <= p < front.len() && front[p] == ff[i];
                assert(s[p] == f[i]);
            } else {
                assert(s[s.len() - 1] == f[i]);
            }
        }
        if s.no_duplicates() {
            assert(front.no_duplicates());
            assert forall|i: int, j: int| 0 <= i < f.len() && 0 <= j < f.len() && i != j implies f[i]
                != f[j] by {
                if i < ff.len() && j < ff.len() {
                } else {
                    let k = if i < ff.len() {
                        i
                    } else {
                        j
                    };
                    assert(front.contains(ff[k]));
                    let p = choose|p: int| 0 <= p < front.len() && front[p] == ff[k];
                    assert(s[p] == ff[k]);
                    assert(s[s.len() - 1] == s.last());
                }
            }
        }
    }
}

/// Removes the repetitions of `names` with `Itertools::unique`, which hands
/// on each item that it has not handed on before, in the order of the list.
/// Assumed of that adaptor: the names it keeps are `unique` of the names given.
#[verifier::external_body]
fn unique_names(names: &Vec<String>) -> (kept: Vec<String>)
    ensures
        name_seq(kept@) == unique(name_seq(names@)),
{
    names.iter().unique().cloned().collect()
}

/// Tells whether `name` names a serialization capability.
pub fn names_serialization(name: &str) -> (b: bool)
    ensures
        b == is_serialization_name(name@),
{
    contains(name, "erialize") || contains(name, "Deserialize")
}

/// The names of `names` that name no serialization capability, in order.
pub fn drop_serialization(names: Vec<String>) -> (kept: Vec<String>)
    ensures
        name_seq(kept@) == without_serialization(name_seq(names@)),
{
    let ghost pred = |name: Seq<char>| !is_serialization_name(name);
    let ghost all = name_seq(names@);
    let mut kept: Vec<String> = Vec::new();
    proof {
        reveal(Seq::filter);
        assert(all.take(0).filter(pred) =~= Seq::<Seq<char>>::empty());
        assert(name_seq(kept@) =~= Seq::<Seq<char>>::empty());
    }
    for name in it: names
        invariant
            all == name_seq(it.seq()),
            pred == |name: Seq<char>| !is_serialization_name(name),
            name_seq(kept@) == all.take(it.index()).filter(pred),
    {
        proof {
            reveal(Seq::filter);
            let i = it.index();
            assert(all.take(i + 1).drop_last() =~= all.take(i));
            assert(all.take(i + 1).last() == name@);
            assert(name_seq(kept@.push(name)) =~= name_seq(kept@).push(name@));
        }
        if !names_serialization(name.as_str()) {
            kept.push(name);
        }
    }
    assert(all.take(all.len() as int) =~= all);
    kept
}

/// What a generated model carries to name its capabilities.
pub enum Directive {
    /// No attribute at all.
    Empty,
    /// A `derive` attribute that lists these names.
    Derive(Vec<String>),
}

/// The mathematical value of a [`Directive`].
pub enum DirectiveView {
    Empty,
    Derive(Seq<Seq<char>>),
}

impl View for Directive {
    type V = DirectiveView;

    open spec fn view(&self) -> DirectiveView {
        match self {
            Directive::Empty => DirectiveView::Empty,
            Directive::Derive(names) => DirectiveView::Derive(name_seq(names@)),
        }
    }
}

/// The names of `names` with ` , ` between them.
pub open spec fn join_names(names: Seq<Seq<char>>) -> Seq<char>
    decreases names.len(),
{
    if names.len() == 0 {
        Seq::empty()
    } else if names.len() == 1 {
        names[0]
    } else {
        join_names(names.drop_last()) + " , "@ + names.last()
    }
}

/// The text of a directive, token by token with one space between two tokens.
/// An empty directive has no text.
pub open spec fn directive_text(d: DirectiveView) -> Seq<char> {
    match d {
        DirectiveView::Empty => Seq::empty(),
        DirectiveView::Derive(names) => "# [ derive ( "@ + join_names(names) + " ) ]"@,
    }
}

impl Directive {
    /// Tells whether this is the empty directive.
    pub fn is_empty(&self) -> (b: bool)
        ensures
            b == (self@ is Empty),
    {
        match self {
            Directive::Empty => true,
            Directive::Derive(_) => false,
        }
    }

    /// The text of the directive.
    pub fn to_string(&self) -> (text: String)
        ensures
            text@ == directive_text(self@),
    {
        match self {
            Directive::Empty => String::new(),
            Directive::Derive(names) => {
                let mut text = "# [ derive ( ".to_owned();
                let n = names.len();
                let mut i: usize = 0;
                while i < n
                    invariant
                        n == names.len(),
                        i <= n,
                        text@ == "# [ derive ( "@ + join_names(name_seq(names@).take(i as int)),
                    decreases n - i,
                {
                    proof {
                        let all = name_seq(names@);
                        assert(all.take(i + 1).drop_last() =~= all.take(i as int));
                        assert(all.take(i + 1).last() == names@[i as int]@);
                    }
                    if i > 0 {
                        text.append(" , ");
                    }
                    text.append(names[i].as_str());
                    assert(text@ =~= "# [ derive ( "@ + join_names(
                        name_seq(names@).take(i + 1),
                    ));
                    i += 1;
                }
                assert(name_seq(names@).take(n as int) =~= name_seq(names@));
                text.append(" ) ]");
                text
            },
        }
    }
}

/// The directive of an enum model with the derive list `list`: the empty
/// directive where `enum_names` leaves nothing, never a directive without names.
pub open spec fn enum_directive_view(list: Seq<Seq<char>>) -> DirectiveView {
    if enum_names(list).len() == 0 {
        DirectiveView::Empty
    } else {
        DirectiveView::Derive(enum_names(list))
    }
}

/// The directive of a struct model with the derive list `list`: its names
/// without repetitions, each where it first occurs.
pub fn model_directive(list: &Vec<String>) -> (d: Directive)
    ensures
        d@ == DirectiveView::Derive(model_names(name_seq(list@))),
{
    Directive::Derive(unique_names(list))
}

/// The directive of an enum model with the derive list `list`: its names
/// without repetitions and without the serialization names; the empty
/// directive where none is left.
pub fn enum_directive(list: &Vec<String>) -> (d: Directive)
    ensures
        d@ == enum_directive_view(name_seq(list@)),
{
    let kept = drop_serialization(unique_names(list));
    if kept.len() == 0 {
        Directive::Empty
    } else {
        Directive::Derive(kept)
    }
}

} // verus!
