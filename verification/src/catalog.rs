//! The order of the catalog and the classification of its identities.

use crate::avmod::Sorting;
use crate::text::{
    chars_of, has_char_from, last_occurrence, lemma_lex_lt_asymmetric, lemma_lex_lt_irreflexive,
    lemma_lex_lt_total, lemma_lex_lt_transitive, lex_lt, occurs_at, occurs_in, text_lt,
};
use vstd::prelude::*;

verus! {

/// The item at position `a` comes before the item at position `b`: by name in
/// lexicographic order, upwards or downwards, or the newer one first; of two
/// items that the order does not tell apart, the one that was enumerated
/// first.
pub open spec fn before(
    sorting: Sorting,
    names: Seq<Seq<char>>,
    mtimes: Seq<u128>,
    a: int,
    b: int,
) -> bool {
    match sorting {
        Sorting::Ascending => lex_lt(names[a], names[b]) || (names[a] == names[b] && a < b),
        Sorting::Descending => lex_lt(names[b], names[a]) || (names[a] == names[b] && a < b),
        Sorting::Mtime => mtimes[a] > mtimes[b] || (mtimes[a] == mtimes[b] && a < b),
    }
}

/// `order` lists the positions of all the items, each once, so that every
/// item comes before those listed after it.
pub open spec fn arranged(
    order: Seq<usize>,
    sorting: Sorting,
    names: Seq<Seq<char>>,
    mtimes: Seq<u128>,
) -> bool {
    &&& order.len() == names.len()
    &&& forall|i: int| 0 <= i < order.len() ==> 0 <= #[trigger] order[i] < names.len()
    &&& forall|i: int, j: int|
        0 <= i < j < order.len() ==> before(
            sorting,
            names,
            mtimes,
            #[trigger] order[i] as int,
            #[trigger] order[j] as int,
        )
}

/// The names of the items in the order of `order`.
pub open spec fn listing(order: Seq<usize>, names: Seq<Seq<char>>) -> Seq<Seq<char>> {
    Seq::new(order.len(), |i: int| names[order[i] as int])
}

/// `result` holds the names in the order that `sorting` asks for.
pub open spec fn sorted_listing(
    result: Seq<Seq<char>>,
    sorting: Sorting,
    names: Seq<Seq<char>>,
    mtimes: Seq<u128>,
) -> bool {
    exists|order: Seq<usize>| #[trigger]
        arranged(order, sorting, names, mtimes) && result == listing(order, names)
}

/// Of two different positions one comes before the other.
pub proof fn lemma_before_total(
    sorting: Sorting,
    names: Seq<Seq<char>>,
    mtimes: Seq<u128>,
    a: int,
    b: int,
)
    requires
        a != b,
    ensures
        before(sorting, names, mtimes, a, b) || before(sorting, names, mtimes, b, a),
{
    lemma_lex_lt_total(names[a], names[b]);
}

/// What comes before an item comes before everything after that item.
pub proof fn lemma_before_transitive(
    sorting: Sorting,
    names: Seq<Seq<char>>,
    mtimes: Seq<u128>,
    a: int,
    b: int,
    c: int,
)
    requires
        before(sorting, names, mtimes, a, b),
        before(sorting, names, mtimes, b, c),
    ensures
        before(sorting, names, mtimes, a, c),
{
    match sorting {
        Sorting::Ascending => {
            if lex_lt(names[a], names[b]) && lex_lt(names[b], names[c]) {
                lemma_lex_lt_transitive(names[a], names[b], names[c]);
            }
        },
        Sorting::Descending => {
            if lex_lt(names[c], names[b]) && lex_lt(names[b], names[a]) {
                lemma_lex_lt_transitive(names[c], names[b], names[a]);
            }
        },
        Sorting::Mtime => {},
    }
}

/// No item comes before itself.
pub proof fn lemma_before_irreflexive(
    sorting: Sorting,
    names: Seq<Seq<char>>,
    mtimes: Seq<u128>,
    a: int,
)
    ensures
        !before(sorting, names, mtimes, a, a),
{
    lemma_lex_lt_irreflexive(names[a]);
}

/// An arrangement lists every position.
pub proof fn lemma_arranged_covers(
    order: Seq<usize>,
    sorting: Sorting,
    names: Seq<Seq<char>>,
    mtimes: Seq<u128>,
    v: int,
)
    requires
        arranged(order, sorting, names, mtimes),
        0 <= v < names.len(),
    ensures
        exists|i: int| 0 <= i < order.len() && order[i] == v,
{
    let n = names.len() as int;
    let ints = Seq::new(order.len(), |i: int| order[i] as int);
    assert forall|i: int, j: int| 0 <= i < ints.len() && 0 <= j < ints.len() && i != j implies ints[i]
        != ints[j] by {
        if i < j {
            assert(before(sorting, names, mtimes, order[i] as int, order[j] as int));
            lemma_before_irreflexive(sorting, names, mtimes, order[i] as int);
        } else {
            assert(before(sorting, names, mtimes, order[j] as int, order[i] as int));
            lemma_before_irreflexive(sorting, names, mtimes, order[j] as int);
        }
    }
    ints.unique_seq_to_set();
    vstd::seq_lib::seq_to_set_is_finite(ints);
    vstd::set_lib::lemma_int_range(0, n);
    let all = vstd::set_lib::set_int_range(0, n);
    assert forall|x: int| ints.to_set().contains(x) implies all.contains(x) by {
        let i = choose|i: int| 0 <= i < ints.len() && ints[i] == x;
        assert(0 <= order[i] < n);
    }
    vstd::set_lib::lemma_subset_equality(ints.to_set(), all);
    assert(all.contains(v));
    assert(ints.contains(v));
    let i = choose|i: int| 0 <= i < ints.len() && ints[i] == v;
    assert(order[i] == v);
}

/// Where two arrangements agree up to a position, the item of the first at
/// that position does not come before that of the second.
proof fn lemma_arranged_clash(
    first: Seq<usize>,
    second: Seq<usize>,
    sorting: Sorting,
    names: Seq<Seq<char>>,
    mtimes: Seq<u128>,
    p: int,
)
    requires
        arranged(first, sorting, names, mtimes),
        arranged(second, sorting, names, mtimes),
        0 <= p < first.len(),
        forall|k: int| 0 <= k < p ==> first[k] == second[k],
    ensures
        !before(sorting, names, mtimes, first[p] as int, second[p] as int),
{
    let a = first[p] as int;
    if before(sorting, names, mtimes, a, second[p] as int) {
        lemma_arranged_covers(second, sorting, names, mtimes, a);
        let j = choose|j: int| 0 <= j < second.len() && second[j] == a;
        lemma_before_irreflexive(sorting, names, mtimes, a);
        if j < p {
            assert(first[j] == second[j]);
            assert(before(sorting, names, mtimes, first[j] as int, first[p] as int));
        } else if j > p {
            assert(before(sorting, names, mtimes, second[p] as int, second[j] as int));
            lemma_before_transitive(sorting, names, mtimes, a, second[p] as int, a);
        }
    }
}

proof fn lemma_arranged_agree(
    first: Seq<usize>,
    second: Seq<usize>,
    sorting: Sorting,
    names: Seq<Seq<char>>,
    mtimes: Seq<u128>,
    upto: int,
)
    requires
        arranged(first, sorting, names, mtimes),
        arranged(second, sorting, names, mtimes),
        0 <= upto <= first.len(),
    ensures
        forall|k: int| 0 <= k < upto ==> first[k] == second[k],
    decreases upto,
{
    if upto > 0 {
        let p = upto - 1;
        lemma_arranged_agree(first, second, sorting, names, mtimes, p);
        let a = first[p] as int;
        let b = second[p] as int;
        if a != b {
            lemma_before_total(sorting, names, mtimes, a, b);
            lemma_arranged_clash(first, second, sorting, names, mtimes, p);
            lemma_arranged_clash(second, first, sorting, names, mtimes, p);
        }
    }
}

/// The order determines the arrangement: there is one arrangement only.
pub proof fn lemma_arranged_unique(
    first: Seq<usize>,
    second: Seq<usize>,
    sorting: Sorting,
    names: Seq<Seq<char>>,
    mtimes: Seq<u128>,
)
    requires
        arranged(first, sorting, names, mtimes),
        arranged(second, sorting, names, mtimes),
    ensures
        first == second,
{
    lemma_arranged_agree(first, second, sorting, names, mtimes, first.len() as int);
    assert(first =~= second);
}

/// The order determines the listing: two listings of the same names in the
/// same order are the same.
pub proof fn lemma_sorted_listing_unique(
    first: Seq<Seq<char>>,
    second: Seq<Seq<char>>,
    sorting: Sorting,
    names: Seq<Seq<char>>,
    mtimes: Seq<u128>,
)
    requires
        sorted_listing(first, sorting, names, mtimes),
        sorted_listing(second, sorting, names, mtimes),
    ensures
        first == second,
{
    let a = choose|order: Seq<usize>| #[trigger]
        arranged(order, sorting, names, mtimes) && first == listing(order, names);
    let b = choose|order: Seq<usize>| #[trigger]
        arranged(order, sorting, names, mtimes) && second == listing(order, names);
    lemma_arranged_unique(a, b, sorting, names, mtimes);
}

/// Whether the item at position `a` comes before the item at position `b`.
fn comes_before(
    sorting: Sorting,
    keys: &Vec<Vec<char>>,
    mtimes: &Vec<u128>,
    a: usize,
    b: usize,
) -> (r: bool)
    requires
        a < keys.len(),
        b < keys.len(),
        sorting == Sorting::Mtime ==> mtimes.len() == keys.len(),
    ensures
        r == before(sorting, keys.deep_view(), mtimes@, a as int, b as int),
{
    proof {
        let x = keys.deep_view()[a as int];
        let y = keys.deep_view()[b as int];
        assert(x == keys@[a as int]@ && y == keys@[b as int]@);
        lemma_lex_lt_total(x, y);
        lemma_lex_lt_irreflexive(x);
        if lex_lt(x, y) {
            lemma_lex_lt_asymmetric(x, y);
        }
        if lex_lt(y, x) {
            lemma_lex_lt_asymmetric(y, x);
        }
    }
    match sorting {
        Sorting::Ascending => {
            text_lt(&keys[a], &keys[b]) || (a < b && !text_lt(&keys[b], &keys[a]))
        },
        Sorting::Descending => {
            text_lt(&keys[b], &keys[a]) || (a < b && !text_lt(&keys[a], &keys[b]))
        },
        Sorting::Mtime => mtimes[a] > mtimes[b] || (mtimes[a] == mtimes[b] && a < b),
    }
}

/// The positions of the items in the order that `sorting` asks for.
pub(crate) fn arrange(sorting: Sorting, keys: &Vec<Vec<char>>, mtimes: &Vec<u128>) -> (order: Vec<usize>)
    requires
        sorting == Sorting::Mtime ==> mtimes.len() == keys.len(),
    ensures
        arranged(order@, sorting, keys.deep_view(), mtimes@),
{
    let ghost names = keys.deep_view();
    let n = keys.len();
    let mut order: Vec<usize> = Vec::new();
    let mut k: usize = 0;
    while k < n
        invariant
            n == keys.len(),
            names == keys.deep_view(),
            sorting == Sorting::Mtime ==> mtimes.len() == keys.len(),
            k <= n,
            order.len() == k,
            forall|i: int| 0 <= i < order.len() ==> 0 <= #[trigger] order@[i] < k,
            forall|i: int, j: int|
                0 <= i < j < order.len() ==> before(
                    sorting,
                    names,
                    mtimes@,
                    #[trigger] order@[i] as int,
                    #[trigger] order@[j] as int,
                ),
        decreases n - k,
    {
        let mut pos: usize = k;
        while pos > 0 && comes_before(sorting, keys, mtimes, k, order[pos - 1])
            invariant
                n == keys.len(),
                names == keys.deep_view(),
                sorting == Sorting::Mtime ==> mtimes.len() == keys.len(),
                k < n,
                order.len() == k,
                pos <= k,
                forall|i: int| 0 <= i < order.len() ==> 0 <= #[trigger] order@[i] < k,
                forall|j: int|
                    pos <= j < order.len() ==> before(
                        sorting,
                        names,
                        mtimes@,
                        k as int,
                        #[trigger] order@[j] as int,
                    ),
            decreases pos,
        {
            pos = pos - 1;
        }
        let ghost old_order = order@;
        proof {
            if pos > 0 {
                let last = old_order[pos - 1] as int;
                lemma_before_total(sorting, names, mtimes@, k as int, last);
                assert forall|i: int| 0 <= i < pos implies before(
                    sorting,
                    names,
                    mtimes@,
                    #[trigger] old_order[i] as int,
                    k as int,
                ) by {
                    if i < pos - 1 {
                        lemma_before_transitive(
                            sorting,
                            names,
                            mtimes@,
                            old_order[i] as int,
                            last,
                            k as int,
                        );
                    }
                }
            }
        }
        order.insert(pos, k);
        proof {
            assert forall|i: int| 0 <= i < order.len() implies 0 <= #[trigger] order@[i] < k + 1 by {
                if i < pos {
                    assert(order@[i] == old_order[i]);
                } else if i > pos {
                    assert(order@[i] == old_order[i - 1]);
                }
            }
            assert forall|i: int, j: int| 0 <= i < j < order.len() implies before(
                sorting,
                names,
                mtimes@,
                #[trigger] order@[i] as int,
                #[trigger] order@[j] as int,
            ) by {
                if i < pos {
                    assert(order@[i] == old_order[i]);
                } else if i > pos {
                    assert(order@[i] == old_order[i - 1]);
                }
                if j < pos {
                    assert(order@[j] == old_order[j]);
                } else if j > pos {
                    assert(order@[j] == old_order[j - 1]);
                }
            }
        }
        k = k + 1;
    }
    order
}

/// The separator between the artist and the title of an identity.
pub open spec fn separator() -> Seq<char> {
    seq![' ', '-', ' ']
}

/// The classes of an identity.
#[derive(Debug, Clone, Copy, PartialEq, Eq, Structural)]
pub enum Category {
    /// A recording of a performance.
    Live,
    /// A studio production.
    Studio,
    /// An identity without the separator: outside both classes.
    Neither,
}

/// The separator stands at `at` and nowhere after it.
pub open spec fn last_separator(identity: Seq<char>, at: int) -> bool {
    &&& occurs_at(identity, at, separator())
    &&& forall|k: int| k > at ==> !occurs_at(identity, k, separator())
}

/// The character `c` stands in `identity` at or after position `from`.
pub open spec fn has_after(identity: Seq<char>, from: int, c: char) -> bool {
    exists|k: int| from <= k < identity.len() && identity[k] == c
}

/// The class of an identity: live where what follows the last separator holds
/// both an opening and a closing parenthesis, studio where it does not, and
/// neither where there is no separator.
pub open spec fn category_of(identity: Seq<char>) -> Category {
    if !occurs_in(identity, separator()) {
        Category::Neither
    } else {
        let at = choose|at: int| last_separator(identity, at);
        if has_after(identity, at + 3, '(') && has_after(identity, at + 3, ')') {
            Category::Live
        } else {
            Category::Studio
        }
    }
}

/// The class of `identity`.
pub fn classify(identity: &str) -> (r: Category)
    ensures
        r == category_of(identity@),
{
    let v = chars_of(identity);
    let n = v.len();
    let mut sep: Vec<char> = Vec::new();
    sep.push(' ');
    sep.push('-');
    sep.push(' ');
    assert(sep@ =~= separator());
    match last_occurrence(&v, &sep) {
        None => Category::Neither,
        Some(at) => {
            proof {
                assert(sep@.len() == 3);
                assert(at + 3 <= n);
                assert(last_separator(identity@, at as int));
                let chosen = choose|k: int| last_separator(identity@, k);
                assert(chosen == at);
            }
            if has_char_from(&v, at + 3, '(') && has_char_from(&v, at + 3, ')') {
                Category::Live
            } else {
                Category::Studio
            }
        },
    }
}

} // verus!
