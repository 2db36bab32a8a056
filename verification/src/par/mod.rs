//! Simulation parameters: a tree of dotted keys with `*` wildcards, whose
//! entries carry a count of the readers that currently hold them.
use vstd::prelude::*;
use vstd::string::*;
use crate::keyed::{StrKeyMap, keys_distinct, entries_map, lemma_entries_map_prefix, lemma_entries_map_at};
use crate::strs::{split_once_spec, lemma_split_once_shorter, split_once, star, is_star, str_eq, char_len, substring};
use crate::common::par::strip_quotes;
use std::marker::PhantomData;

pub mod api;
pub mod yaml;

verus! {

/// How a branch of the tree matches a key element.
pub enum Matching {
    Any,
    Path(Seq<char>),
}

/// A parameter tree: its branches in order, and the entries at this node as
/// values with the number of readers holding them.
pub struct ParTreeModel {
    pub branches: Seq<(Matching, ParTreeModel)>,
    pub pars: Map<Seq<char>, (Seq<char>, usize)>,
}

/// The tree with no branches and no entries.
pub open spec fn empty_par_tree() -> ParTreeModel {
    ParTreeModel { branches: Seq::empty(), pars: Map::empty() }
}

/// Writers take the wildcard branch only for the element `*`.
pub open spec fn matches_w(m: Matching, comp: Seq<char>) -> bool {
    match m {
        Matching::Any => comp == star(),
        Matching::Path(p) => p == comp,
    }
}

/// Readers take the wildcard branch for every element.
pub open spec fn matches_r(m: Matching, comp: Seq<char>) -> bool {
    match m {
        Matching::Any => true,
        Matching::Path(p) => p == comp,
    }
}

/// The value a reader finds under `key`: the node's entry at the last element;
/// before that, the first branch the element reaches that holds the rest.
pub open spec fn read_model(t: ParTreeModel, key: Seq<char>) -> Option<Seq<char>>
    decreases t, 1int,
{
    match split_once_spec(key, '.') {
        Some((comp, rem)) => read_branches(t.branches, comp, rem),
        None => if t.pars.dom().contains(key) { Some(t.pars[key].0) } else { None },
    }
}

/// `read_model` over the branches in order.
pub open spec fn read_branches(bs: Seq<(Matching, ParTreeModel)>, comp: Seq<char>, rem: Seq<char>) -> Option<Seq<char>>
    decreases bs, 0int,
{
    if bs.len() == 0 {
        None
    } else {
        let found = if matches_r(bs[0].0, comp) { read_model(bs[0].1, rem) } else { None };
        if found is Some { found } else { read_branches(bs.drop_first(), comp, rem) }
    }
}

/// A reader count after adding (`up`) or taking away `amount`, wrapping around.
pub open spec fn count_step(n: usize, amount: usize, up: bool) -> usize {
    if up {
        vstd::wrapping::usize_specs::wrapping_add(n, amount)
    } else {
        vstd::wrapping::usize_specs::wrapping_sub(n, amount)
    }
}

/// The tree with the reader count of the entry a reader finds under `key`
/// stepped by `amount`; unchanged when no entry is found.
pub open spec fn adjust_model(t: ParTreeModel, key: Seq<char>, amount: usize, up: bool) -> ParTreeModel
    decreases t, 1int,
{
    match split_once_spec(key, '.') {
        Some((comp, rem)) => ParTreeModel {
            branches: adjust_branches(t.branches, comp, rem, amount, up),
            pars: t.pars,
        },
        None => if t.pars.dom().contains(key) {
            ParTreeModel {
                branches: t.branches,
                pars: t.pars.insert(key, (t.pars[key].0, count_step(t.pars[key].1, amount, up))),
            }
        } else {
            t
        },
    }
}

/// `adjust_model` over the branches in order.
pub open spec fn adjust_branches(
    bs: Seq<(Matching, ParTreeModel)>,
    comp: Seq<char>,
    rem: Seq<char>,
    amount: usize,
    up: bool,
) -> Seq<(Matching, ParTreeModel)>
    decreases bs, 0int,
{
    if bs.len() == 0 {
        bs
    } else if matches_r(bs[0].0, comp) && read_model(bs[0].1, rem) is Some {
        seq![(bs[0].0, adjust_model(bs[0].1, rem, amount, up))] + bs.drop_first()
    } else {
        seq![bs[0]] + adjust_branches(bs.drop_first(), comp, rem, amount, up)
    }
}

/// The first branch, from position `i` on, that a writer takes for `comp`.
pub open spec fn first_w(bs: Seq<(Matching, ParTreeModel)>, comp: Seq<char>, i: int) -> Option<int>
    decreases bs.len() - i,
{
    if i < 0 || i >= bs.len() {
        None
    } else if matches_w(bs[i].0, comp) {
        Some(i)
    } else {
        first_w(bs, comp, i + 1)
    }
}

/// The matching of a new branch for the element `comp`.
pub open spec fn matching_for(comp: Seq<char>) -> Matching {
    if comp == star() { Matching::Any } else { Matching::Path(comp) }
}

/// A write of `value` under `key`: the tree afterwards, and whether the value
/// was stored. Each element but the last selects or creates a branch; at the
/// last, an entry held by no reader takes the value (a new entry starts with no
/// readers), while an entry held by readers is left as it is.
pub open spec fn write_model(t: ParTreeModel, key: Seq<char>, value: Seq<char>) -> (ParTreeModel, bool)
    decreases key.len(),
{
    match split_once_spec(key, '.') {
        Some((comp, rem)) => {
            proof {
                lemma_split_once_shorter(key, '.');
            }
            match first_w(t.branches, comp, 0) {
                Some(i) => {
                    let (sub, ok) = write_model(t.branches[i].1, rem, value);
                    (ParTreeModel { branches: t.branches.update(i, (t.branches[i].0, sub)), pars: t.pars }, ok)
                },
                None => {
                    let (sub, ok) = write_model(empty_par_tree(), rem, value);
                    (ParTreeModel { branches: t.branches.push((matching_for(comp), sub)), pars: t.pars }, ok)
                },
            }
        },
        None => if !t.pars.dom().contains(key) {
            (ParTreeModel { branches: t.branches, pars: t.pars.insert(key, (value, 0usize)) }, true)
        } else if t.pars[key].1 == 0 {
            (ParTreeModel { branches: t.branches, pars: t.pars.insert(key, (value, 0usize)) }, true)
        } else {
            (t, false)
        },
    }
}

/// A removal of the entry under `key` along the writers' branches: the tree
/// afterwards, and whether an entry was removed. No branch is created.
pub open spec fn remove_model(t: ParTreeModel, key: Seq<char>) -> (ParTreeModel, bool)
    decreases key.len(),
{
    match split_once_spec(key, '.') {
        Some((comp, rem)) => {
            proof {
                lemma_split_once_shorter(key, '.');
            }
            match first_w(t.branches, comp, 0) {
                Some(i) => {
                    let (sub, ok) = remove_model(t.branches[i].1, rem);
                    (ParTreeModel { branches: t.branches.update(i, (t.branches[i].0, sub)), pars: t.pars }, ok)
                },
                None => (t, false),
            }
        },
        None => (ParTreeModel { branches: t.branches, pars: t.pars.remove(key) }, t.pars.dom().contains(key)),
    }
}

proof fn lemma_adjust_absent(t: ParTreeModel, key: Seq<char>, amount: usize, up: bool)
    requires
        read_model(t, key) is None,
    ensures
        adjust_model(t, key, amount, up) == t,
    decreases t, 1int,
{
    match split_once_spec(key, '.') {
        Some((comp, rem)) => {
            lemma_adjust_branches_absent(t.branches, comp, rem, amount, up);
        },
        None => {},
    }
}

proof fn lemma_adjust_branches_absent(
    bs: Seq<(Matching, ParTreeModel)>,
    comp: Seq<char>,
    rem: Seq<char>,
    amount: usize,
    up: bool,
)
    requires
        read_branches(bs, comp, rem) is None,
    ensures
        adjust_branches(bs, comp, rem, amount, up) == bs,
    decreases bs, 0int,
{
    if bs.len() > 0 {
        lemma_adjust_branches_absent(bs.drop_first(), comp, rem, amount, up);
        assert(seq![bs[0]] + bs.drop_first() =~= bs);
    }
}

proof fn lemma_branches_found_at(
    bs: Seq<(Matching, ParTreeModel)>,
    comp: Seq<char>,
    rem: Seq<char>,
    amount: usize,
    up: bool,
    i: int,
)
    requires
        0 <= i < bs.len(),
        matches_r(bs[i].0, comp),
        read_model(bs[i].1, rem) is Some,
        forall|j: int| 0 <= j < i ==> !(matches_r(#[trigger] bs[j].0, comp) && read_model(bs[j].1, rem) is Some),
    ensures
        read_branches(bs, comp, rem) == read_model(bs[i].1, rem),
        adjust_branches(bs, comp, rem, amount, up) == bs.update(i, (bs[i].0, adjust_model(bs[i].1, rem, amount, up))),
    decreases bs.len(),
{
    if i == 0 {
        assert(seq![(bs[0].0, adjust_model(bs[0].1, rem, amount, up))] + bs.drop_first()
            =~= bs.update(0, (bs[0].0, adjust_model(bs[0].1, rem, amount, up))));
    } else {
        let t = bs.drop_first();
        assert forall|j: int| 0 <= j < i - 1 implies !(matches_r(#[trigger] t[j].0, comp) && read_model(t[j].1, rem) is Some) by {
            assert(t[j] == bs[j + 1]);
        }
        assert(!(matches_r(bs[0].0, comp) && read_model(bs[0].1, rem) is Some));
        lemma_branches_found_at(t, comp, rem, amount, up, i - 1);
        assert(seq![bs[0]] + t.update(i - 1, (t[i - 1].0, adjust_model(t[i - 1].1, rem, amount, up)))
            =~= bs.update(i, (bs[i].0, adjust_model(bs[i].1, rem, amount, up))));
    }
}

proof fn lemma_branches_none_upto(bs: Seq<(Matching, ParTreeModel)>, comp: Seq<char>, rem: Seq<char>)
    requires
        forall|j: int| 0 <= j < bs.len() ==> !(matches_r(#[trigger] bs[j].0, comp) && read_model(bs[j].1, rem) is Some),
    ensures
        read_branches(bs, comp, rem) is None,
    decreases bs.len(),
{
    if bs.len() > 0 {
        let t = bs.drop_first();
        assert forall|j: int| 0 <= j < t.len() implies !(matches_r(#[trigger] t[j].0, comp) && read_model(t[j].1, rem) is Some) by {
            assert(t[j] == bs[j + 1]);
        }
        assert(!(matches_r(bs[0].0, comp) && read_model(bs[0].1, rem) is Some));
        lemma_branches_none_upto(t, comp, rem);
    }
}

proof fn lemma_first_w(bs: Seq<(Matching, ParTreeModel)>, comp: Seq<char>, i: int)
    requires
        0 <= i <= bs.len(),
    ensures
        match first_w(bs, comp, i) {
            Some(j) => i <= j < bs.len() && matches_w(bs[j].0, comp)
                && forall|l: int| i <= l < j ==> !matches_w(#[trigger] bs[l].0, comp),
            None => forall|l: int| i <= l < bs.len() ==> !matches_w(#[trigger] bs[l].0, comp),
        },
    decreases bs.len() - i,
{
    if i < bs.len() && !matches_w(bs[i].0, comp) {
        lemma_first_w(bs, comp, i + 1);
    }
}


/// Two trees with the same branches, entries and values, whatever their reader counts.
pub open spec fn same_values(a: ParTreeModel, b: ParTreeModel) -> bool
    decreases a, 1int,
{
    &&& same_branch_values(a.branches, b.branches)
    &&& a.pars.dom() == b.pars.dom()
    &&& forall|k: Seq<char>| #[trigger] a.pars.dom().contains(k) ==> a.pars[k].0 == b.pars[k].0
}

/// `same_values` for branches, position by position.
pub open spec fn same_branch_values(x: Seq<(Matching, ParTreeModel)>, y: Seq<(Matching, ParTreeModel)>) -> bool
    decreases x, 0int,
{
    &&& x.len() == y.len()
    &&& (x.len() == 0 || (x[0].0 == y[0].0 && same_values(x[0].1, y[0].1)
        && same_branch_values(x.drop_first(), y.drop_first())))
}

proof fn lemma_same_values_refl(t: ParTreeModel)
    ensures
        same_values(t, t),
    decreases t, 1int,
{
    lemma_same_branch_values_refl(t.branches);
}

proof fn lemma_same_branch_values_refl(x: Seq<(Matching, ParTreeModel)>)
    ensures
        same_branch_values(x, x),
    decreases x, 0int,
{
    if x.len() > 0 {
        lemma_same_values_refl(x[0].1);
        lemma_same_branch_values_refl(x.drop_first());
    }
}

proof fn lemma_read_same(a: ParTreeModel, b: ParTreeModel, key: Seq<char>)
    requires
        same_values(a, b),
    ensures
        read_model(a, key) == read_model(b, key),
    decreases a, 1int,
{
    match split_once_spec(key, '.') {
        Some((comp, rem)) => lemma_read_branches_same(a.branches, b.branches, comp, rem),
        None => {},
    }
}

proof fn lemma_read_branches_same(x: Seq<(Matching, ParTreeModel)>, y: Seq<(Matching, ParTreeModel)>, comp: Seq<char>, rem: Seq<char>)
    requires
        same_branch_values(x, y),
    ensures
        read_branches(x, comp, rem) == read_branches(y, comp, rem),
    decreases x, 0int,
{
    if x.len() > 0 {
        lemma_read_same(x[0].1, y[0].1, rem);
        lemma_read_branches_same(x.drop_first(), y.drop_first(), comp, rem);
    }
}

proof fn lemma_adjust_same(t: ParTreeModel, key: Seq<char>, amount: usize, up: bool)
    ensures
        same_values(adjust_model(t, key, amount, up), t),
    decreases t, 1int,
{
    match split_once_spec(key, '.') {
        Some((comp, rem)) => {
            lemma_adjust_branches_same(t.branches, comp, rem, amount, up);
        },
        None => {
            lemma_same_branch_values_refl(t.branches);
            if t.pars.dom().contains(key) {
                let t2 = adjust_model(t, key, amount, up);
                assert(t2.pars.dom() =~= t.pars.dom());
            }
        },
    }
}

proof fn lemma_adjust_branches_same(bs: Seq<(Matching, ParTreeModel)>, comp: Seq<char>, rem: Seq<char>, amount: usize, up: bool)
    ensures
        same_branch_values(adjust_branches(bs, comp, rem, amount, up), bs),
    decreases bs, 0int,
{
    if bs.len() > 0 {
        let a = adjust_branches(bs, comp, rem, amount, up);
        if matches_r(bs[0].0, comp) && read_model(bs[0].1, rem) is Some {
            lemma_adjust_same(bs[0].1, rem, amount, up);
            lemma_same_branch_values_refl(bs.drop_first());
            assert(a[0] == (bs[0].0, adjust_model(bs[0].1, rem, amount, up)));
            assert(a.drop_first() =~= bs.drop_first());
        } else {
            lemma_adjust_branches_same(bs.drop_first(), comp, rem, amount, up);
            lemma_same_values_refl(bs[0].1);
            assert(a[0] == bs[0]);
            assert(a.drop_first() =~= adjust_branches(bs.drop_first(), comp, rem, amount, up));
        }
    }
}

proof fn lemma_lock_release_tree(t: ParTreeModel, key: Seq<char>)
    ensures
        adjust_model(adjust_model(t, key, 1, true), key, 1, false) == t,
    decreases t, 1int,
{
    match split_once_spec(key, '.') {
        Some((comp, rem)) => {
            lemma_lock_release_branches(t.branches, comp, rem);
        },
        None => {
            if t.pars.dom().contains(key) {
                let c = t.pars[key].1;
                assert(count_step(count_step(c, 1, true), 1, false) == c);
                let t2 = adjust_model(adjust_model(t, key, 1, true), key, 1, false);
                assert(t2.pars =~= t.pars);
            }
        },
    }
}

proof fn lemma_lock_release_branches(bs: Seq<(Matching, ParTreeModel)>, comp: Seq<char>, rem: Seq<char>)
    ensures
        adjust_branches(adjust_branches(bs, comp, rem, 1, true), comp, rem, 1, false) == bs,
    decreases bs, 0int,
{
    if bs.len() > 0 {
        let a = adjust_branches(bs, comp, rem, 1, true);
        if matches_r(bs[0].0, comp) && read_model(bs[0].1, rem) is Some {
            lemma_adjust_same(bs[0].1, rem, 1, true);
            lemma_read_same(adjust_model(bs[0].1, rem, 1, true), bs[0].1, rem);
            lemma_lock_release_tree(bs[0].1, rem);
            assert(a.drop_first() =~= bs.drop_first());
            assert(adjust_branches(a, comp, rem, 1, false) =~= bs);
        } else {
            lemma_lock_release_branches(bs.drop_first(), comp, rem);
            assert(a.drop_first() =~= adjust_branches(bs.drop_first(), comp, rem, 1, true));
            assert(adjust_branches(a, comp, rem, 1, false) =~= bs);
        }
    }
}

/// Taking a reader's lock on a parameter and releasing it again leaves the
/// store as it was, and the release finds the entry whenever the lock was taken.
pub proof fn law_lock_then_release(t: ParTreeModel, key: Seq<char>)
    ensures
        adjust_model(adjust_model(t, key, 1, true), key, 1, false) == t,
        read_model(adjust_model(t, key, 1, true), key) == read_model(t, key),
{
    lemma_lock_release_tree(t, key);
    lemma_adjust_same(t, key, 1, true);
    lemma_read_same(adjust_model(t, key, 1, true), t, key);
}

/// Reader locks never change what readers find.
pub proof fn law_locks_keep_values(t: ParTreeModel, key: Seq<char>, amount: usize, up: bool, other: Seq<char>)
    ensures
        read_model(adjust_model(t, key, amount, up), other) == read_model(t, other),
{
    lemma_adjust_same(t, key, amount, up);
    lemma_read_same(adjust_model(t, key, amount, up), t, other);
}

proof fn lemma_read_branches_at(bs: Seq<(Matching, ParTreeModel)>, comp: Seq<char>, rem: Seq<char>, i: int)
    requires
        0 <= i < bs.len(),
        matches_r(bs[i].0, comp),
        read_model(bs[i].1, rem) is Some,
    ensures
        read_branches(bs, comp, rem) is Some,
    decreases bs.len(),
{
    if i > 0 {
        let t = bs.drop_first();
        assert(t[i - 1] == bs[i]);
        lemma_read_branches_at(t, comp, rem, i - 1);
    }
}

/// After a write of a key succeeds, a reader finds some value under that key.
pub proof fn law_write_then_found(t: ParTreeModel, key: Seq<char>, value: Seq<char>)
    ensures
        write_model(t, key, value).1 ==> read_model(write_model(t, key, value).0, key) is Some,
    decreases key.len(),
{
    match split_once_spec(key, '.') {
        Some((comp, rem)) => {
            lemma_split_once_shorter(key, '.');
            let bs = t.branches;
            lemma_first_w(bs, comp, 0);
            let (t2, ok) = write_model(t, key, value);
            match first_w(bs, comp, 0) {
                Some(i) => {
                    law_write_then_found(bs[i].1, rem, value);
                    if ok {
                        lemma_read_branches_at(t2.branches, comp, rem, i);
                    }
                },
                None => {
                    law_write_then_found(empty_par_tree(), rem, value);
                    if ok {
                        lemma_read_branches_at(t2.branches, comp, rem, bs.len() as int);
                    }
                },
            }
        },
        None => {},
    }
}


/// No wildcard branch anywhere in the tree.
pub open spec fn wildcard_free(t: ParTreeModel) -> bool
    decreases t, 1int,
{
    wildcard_free_branches(t.branches)
}

/// No wildcard branch anywhere in the branches.
pub open spec fn wildcard_free_branches(bs: Seq<(Matching, ParTreeModel)>) -> bool
    decreases bs, 0int,
{
    bs.len() == 0 || (bs[0].0 != Matching::Any && wildcard_free(bs[0].1) && wildcard_free_branches(bs.drop_first()))
}

/// Exact branch names occur at most once per node, and `*` is never one.
pub open spec fn unique_paths(t: ParTreeModel) -> bool
    decreases t, 1int,
{
    &&& forall|i: int, j: int| 0 <= i < j < t.branches.len() ==> #[trigger] t.branches[i].0 != #[trigger] t.branches[j].0
    &&& forall|i: int| 0 <= i < t.branches.len() ==> #[trigger] t.branches[i].0 != Matching::Path(star())
    &&& unique_paths_branches(t.branches)
}

/// `unique_paths` for every subtree of the branches.
pub open spec fn unique_paths_branches(bs: Seq<(Matching, ParTreeModel)>) -> bool
    decreases bs, 0int,
{
    bs.len() == 0 || (unique_paths(bs[0].1) && unique_paths_branches(bs.drop_first()))
}

proof fn lemma_wildcard_free_at(bs: Seq<(Matching, ParTreeModel)>, i: int)
    requires
        wildcard_free_branches(bs),
        0 <= i < bs.len(),
    ensures
        bs[i].0 != Matching::Any,
        wildcard_free(bs[i].1),
    decreases bs.len(),
{
    if i > 0 {
        assert(bs.drop_first()[i - 1] == bs[i]);
        lemma_wildcard_free_at(bs.drop_first(), i - 1);
    }
}

proof fn lemma_unique_paths_at(bs: Seq<(Matching, ParTreeModel)>, i: int)
    requires
        unique_paths_branches(bs),
        0 <= i < bs.len(),
    ensures
        unique_paths(bs[i].1),
    decreases bs.len(),
{
    if i > 0 {
        assert(bs.drop_first()[i - 1] == bs[i]);
        lemma_unique_paths_at(bs.drop_first(), i - 1);
    }
}

proof fn lemma_read_branches_first(bs: Seq<(Matching, ParTreeModel)>, comp: Seq<char>, rem: Seq<char>, i: int)
    requires
        0 <= i < bs.len(),
        matches_r(bs[i].0, comp),
        forall|j: int| 0 <= j < i ==> !matches_r(#[trigger] bs[j].0, comp),
    ensures
        read_model(bs[i].1, rem) is Some ==> read_branches(bs, comp, rem) == read_model(bs[i].1, rem),
    decreases bs.len(),
{
    if i > 0 {
        let t = bs.drop_first();
        assert(t[i - 1] == bs[i]);
        assert forall|j: int| 0 <= j < i - 1 implies !matches_r(#[trigger] t[j].0, comp) by {
            assert(t[j] == bs[j + 1]);
        }
        assert(!matches_r(bs[0].0, comp));
        lemma_read_branches_first(t, comp, rem, i - 1);
    }
}

/// In a tree without wildcard branches, a reader finds exactly the value that
/// a successful write stored under the same key.
pub proof fn law_write_then_read(t: ParTreeModel, key: Seq<char>, value: Seq<char>)
    requires
        wildcard_free(t),
    ensures
        write_model(t, key, value).1 ==> read_model(write_model(t, key, value).0, key) == Some(value),
    decreases key.len(),
{
    match split_once_spec(key, '.') {
        Some((comp, rem)) => {
            lemma_split_once_shorter(key, '.');
            let bs = t.branches;
            lemma_first_w(bs, comp, 0);
            let (t2, ok) = write_model(t, key, value);
            let bs2 = t2.branches;
            match first_w(bs, comp, 0) {
                Some(i) => {
                    lemma_wildcard_free_at(bs, i);
                    law_write_then_read(bs[i].1, rem, value);
                    assert forall|j: int| 0 <= j < i implies !matches_r(#[trigger] bs2[j].0, comp) by {
                        lemma_wildcard_free_at(bs, j);
                        assert(bs2[j] == bs[j]);
                    }
                    lemma_read_branches_first(bs2, comp, rem, i);
                },
                None => {
                    let n = bs.len() as int;
                    law_write_then_read(empty_par_tree(), rem, value);
                    assert forall|j: int| 0 <= j < n implies !matches_r(#[trigger] bs2[j].0, comp) by {
                        lemma_wildcard_free_at(bs, j);
                        assert(bs2[j] == bs[j]);
                    }
                    assert(matches_r(bs2[n].0, comp));
                    lemma_read_branches_first(bs2, comp, rem, n);
                },
            }
        },
        None => {},
    }
}

/// How many readers hold the entry a reader finds under `key` (0 where none
/// is found).
pub open spec fn readers(t: ParTreeModel, key: Seq<char>) -> usize
    decreases t, 1int,
{
    match split_once_spec(key, '.') {
        Some((comp, rem)) => readers_branches(t.branches, comp, rem),
        None => if t.pars.dom().contains(key) { t.pars[key].1 } else { 0 },
    }
}

/// `readers` over the branches in order.
pub open spec fn readers_branches(bs: Seq<(Matching, ParTreeModel)>, comp: Seq<char>, rem: Seq<char>) -> usize
    decreases bs, 0int,
{
    if bs.len() == 0 {
        0
    } else if matches_r(bs[0].0, comp) && read_model(bs[0].1, rem) is Some {
        readers(bs[0].1, rem)
    } else {
        readers_branches(bs.drop_first(), comp, rem)
    }
}

proof fn lemma_read_branches_some(bs: Seq<(Matching, ParTreeModel)>, comp: Seq<char>, rem: Seq<char>) -> (i: int)
    requires
        read_branches(bs, comp, rem) is Some,
    ensures
        0 <= i < bs.len(),
        matches_r(bs[i].0, comp),
        read_model(bs[i].1, rem) is Some,
        forall|j: int| 0 <= j < i ==> !(matches_r(#[trigger] bs[j].0, comp) && read_model(bs[j].1, rem) is Some),
        readers_branches(bs, comp, rem) == readers(bs[i].1, rem),
    decreases bs.len(),
{
    if matches_r(bs[0].0, comp) && read_model(bs[0].1, rem) is Some {
        0
    } else {
        let t = bs.drop_first();
        let k = lemma_read_branches_some(t, comp, rem);
        assert(t[k] == bs[k + 1]);
        assert forall|j: int| 0 <= j < k + 1 implies !(matches_r(#[trigger] bs[j].0, comp) && read_model(bs[j].1, rem) is Some) by {
            if j > 0 {
                assert(t[j - 1] == bs[j]);
            }
        }
        k + 1
    }
}

/// A reader's lock makes a later write fail: in a tree without wildcard
/// branches and with unique branch names, once a reader holds the entry
/// under `key` (and the count of its readers has not gone round), a write
/// under `key` is refused.
pub proof fn law_held_entry_refuses_write(t: ParTreeModel, key: Seq<char>, value: Seq<char>)
    requires
        wildcard_free(t),
        unique_paths(t),
        read_model(t, key) is Some,
        readers(t, key) < usize::MAX,
    ensures
        !write_model(adjust_model(t, key, 1, true), key, value).1,
    decreases key.len(),
{
    match split_once_spec(key, '.') {
        Some((comp, rem)) => {
            lemma_split_once_shorter(key, '.');
            let bs = t.branches;
            let i = lemma_read_branches_some(bs, comp, rem);
            lemma_branches_found_at(bs, comp, rem, 1, true, i);
            lemma_wildcard_free_at(bs, i);
            lemma_unique_paths_at(bs, i);
            let locked = adjust_model(t, key, 1, true);
            let bs2 = locked.branches;
            assert(bs2 == bs.update(i, (bs[i].0, adjust_model(bs[i].1, rem, 1, true))));
            assert(matches_w(bs2[i].0, comp));
            assert forall|l: int| 0 <= l < i implies !matches_w(#[trigger] bs2[l].0, comp) by {
                lemma_wildcard_free_at(bs, l);
                assert(bs2[l] == bs[l]);
                assert(bs[l].0 != bs[i].0);
            }
            lemma_first_w(bs2, comp, 0);
            match first_w(bs2, comp, 0) {
                Some(j) => {
                    if j > i {
                        assert(!matches_w(bs2[i].0, comp));
                    }
                    assert(j == i);
                },
                None => {
                    assert(!matches_w(bs2[i].0, comp));
                },
            }
            law_held_entry_refuses_write(bs[i].1, rem, value);
        },
        None => {},
    }
}

proof fn lemma_unique_paths_branches_all(bs: Seq<(Matching, ParTreeModel)>)
    ensures
        unique_paths_branches(bs) <==> forall|i: int| 0 <= i < bs.len() ==> unique_paths(#[trigger] bs[i].1),
    decreases bs.len(),
{
    if bs.len() > 0 {
        let t = bs.drop_first();
        lemma_unique_paths_branches_all(t);
        if forall|i: int| 0 <= i < bs.len() ==> unique_paths(#[trigger] bs[i].1) {
            assert forall|i: int| 0 <= i < t.len() implies unique_paths(#[trigger] t[i].1) by {
                assert(t[i] == bs[i + 1]);
            }
        }
        if unique_paths_branches(bs) {
            assert forall|i: int| 0 <= i < bs.len() implies unique_paths(#[trigger] bs[i].1) by {
                if i > 0 {
                    assert(t[i - 1] == bs[i]);
                }
            }
        }
    }
}

/// Stores built by writes have unique branch names: a write keeps them so,
/// starting from the empty store.
pub proof fn law_writes_keep_unique_paths(t: ParTreeModel, key: Seq<char>, value: Seq<char>)
    requires
        unique_paths(t),
    ensures
        unique_paths(empty_par_tree()),
        unique_paths(write_model(t, key, value).0),
    decreases key.len(),
{
    assert(unique_paths(empty_par_tree())) by {
        lemma_unique_paths_branches_all(empty_par_tree().branches);
    }
    match split_once_spec(key, '.') {
        Some((comp, rem)) => {
            lemma_split_once_shorter(key, '.');
            let bs = t.branches;
            lemma_first_w(bs, comp, 0);
            lemma_unique_paths_branches_all(bs);
            let t2 = write_model(t, key, value).0;
            let bs2 = t2.branches;
            match first_w(bs, comp, 0) {
                Some(i) => {
                    law_writes_keep_unique_paths(bs[i].1, rem, value);
                    assert forall|j: int| 0 <= j < bs2.len() implies #[trigger] bs2[j].0 == bs[j].0 by {}
                    lemma_unique_paths_branches_all(bs2);
                    assert forall|j: int| 0 <= j < bs2.len() implies unique_paths(#[trigger] bs2[j].1) by {
                        if j != i {
                            assert(bs2[j] == bs[j]);
                        }
                    }
                },
                None => {
                    law_writes_keep_unique_paths(empty_par_tree(), rem, value);
                    let n = bs.len() as int;
                    lemma_unique_paths_branches_all(bs2);
                    assert forall|j: int| 0 <= j < bs2.len() implies unique_paths(#[trigger] bs2[j].1) by {
                        if j < n {
                            assert(bs2[j] == bs[j]);
                        }
                    }
                    assert forall|a: int, b: int| 0 <= a < b < bs2.len() implies #[trigger] bs2[a].0 != #[trigger] bs2[b].0 by {
                        if b == n {
                            assert(!matches_w(bs[a].0, comp));
                            assert(bs2[a] == bs[a]);
                        } else {
                            assert(bs2[a] == bs[a] && bs2[b] == bs[b]);
                        }
                    }
                    assert forall|a: int| 0 <= a < bs2.len() implies #[trigger] bs2[a].0 != Matching::Path(star()) by {
                        if a < n {
                            assert(bs2[a] == bs[a]);
                        }
                    }
                },
            }
        },
        None => {},
    }
}

/// The value a writer's path leads to under `key`: the node's entry at the
/// last element, before that the first branch a writer takes.
pub open spec fn read_written(t: ParTreeModel, key: Seq<char>) -> Option<Seq<char>>
    decreases key.len(),
{
    match split_once_spec(key, '.') {
        Some((comp, rem)) => {
            proof {
                lemma_split_once_shorter(key, '.');
            }
            match first_w(t.branches, comp, 0) {
                Some(i) => read_written(t.branches[i].1, rem),
                None => None,
            }
        },
        None => if t.pars.dom().contains(key) { Some(t.pars[key].0) } else { None },
    }
}

/// In every store, wildcards or not, a removal takes away the entry a
/// writer's path leads to under the key; readers may still find the value
/// of a wildcard branch there.
pub proof fn law_remove_then_unwritten(t: ParTreeModel, key: Seq<char>)
    ensures
        read_written(remove_model(t, key).0, key) is None,
    decreases key.len(),
{
    match split_once_spec(key, '.') {
        Some((comp, rem)) => {
            lemma_split_once_shorter(key, '.');
            let bs = t.branches;
            lemma_first_w(bs, comp, 0);
            let t2 = remove_model(t, key).0;
            match first_w(bs, comp, 0) {
                Some(i) => {
                    law_remove_then_unwritten(bs[i].1, rem);
                    let bs2 = t2.branches;
                    assert(bs2.len() == bs.len());
                    assert forall|j: int| 0 <= j < bs2.len() implies #[trigger] bs2[j].0 == bs[j].0 by {}
                    lemma_first_w(bs2, comp, 0);
                    assert(first_w(bs2, comp, 0) == Some(i)) by {
                        match first_w(bs2, comp, 0) {
                            Some(k) => {
                                if k < i {
                                    assert(bs2[k].0 == bs[k].0);
                                }
                                if k > i {
                                    assert(matches_w(bs2[i].0, comp));
                                }
                            },
                            None => {
                                assert(matches_w(bs2[i].0, comp));
                            },
                        }
                    }
                },
                None => {},
            }
        },
        None => {},
    }
}

proof fn lemma_first_w_same_from(bs: Seq<(Matching, ParTreeModel)>, cs: Seq<(Matching, ParTreeModel)>, comp: Seq<char>, i: int)
    requires
        bs.len() == cs.len(),
        forall|j: int| 0 <= j < bs.len() ==> #[trigger] cs[j].0 == bs[j].0,
    ensures
        first_w(cs, comp, i) == first_w(bs, comp, i),
    decreases bs.len() - i,
{
    if 0 <= i < bs.len() {
        assert(cs[i].0 == bs[i].0);
        lemma_first_w_same_from(bs, cs, comp, i + 1);
    }
}

/// A writer's element selects a branch by its own text: two elements that a
/// writer sends down the same branch are the same element.
proof fn lemma_matches_w_same(m: Matching, a: Seq<char>, b: Seq<char>)
    requires
        matches_w(m, a),
        matches_w(m, b),
    ensures
        a == b,
{
}

/// Removing the entry under `key` leaves every other key as it was: in
/// every store, wildcards or not, the entry a writer's path leads to under
/// any other key is the same before and after.
pub proof fn law_remove_keeps_other_keys(t: ParTreeModel, key: Seq<char>, other: Seq<char>)
    requires
        other != key,
    ensures
        read_written(remove_model(t, key).0, other) == read_written(t, other),
    decreases key.len(),
{
    lemma_split_once_shorter(key, '.');
    lemma_split_once_shorter(other, '.');
    let t2 = remove_model(t, key).0;
    match split_once_spec(key, '.') {
        Some((comp, rem)) => {
            let bs = t.branches;
            lemma_first_w(bs, comp, 0);
            match first_w(bs, comp, 0) {
                Some(i) => {
                    let bs2 = t2.branches;
                    assert(bs2 == bs.update(i, (bs[i].0, remove_model(bs[i].1, rem).0)));
                    assert forall|j: int| 0 <= j < bs.len() implies #[trigger] bs2[j].0 == bs[j].0 by {}
                    match split_once_spec(other, '.') {
                        Some((c2, r2)) => {
                            lemma_first_w_same_from(bs, bs2, c2, 0);
                            lemma_first_w(bs, c2, 0);
                            match first_w(bs, c2, 0) {
                                Some(j) => {
                                    if j == i {
                                        lemma_matches_w_same(bs[i].0, comp, c2);
                                        assert(r2 != rem);
                                        law_remove_keeps_other_keys(bs[i].1, rem, r2);
                                    } else {
                                        assert(bs2[j] == bs[j]);
                                    }
                                },
                                None => {},
                            }
                        },
                        None => {},
                    }
                },
                None => {},
            }
        },
        None => {
            match split_once_spec(other, '.') {
                Some((c2, r2)) => {
                    lemma_first_w_same_from(t.branches, t2.branches, c2, 0);
                },
                None => {},
            }
        },
    }
}

proof fn lemma_wildcard_free_branches_all(bs: Seq<(Matching, ParTreeModel)>)
    ensures
        wildcard_free_branches(bs) <==> forall|i: int| 0 <= i < bs.len()
            ==> #[trigger] bs[i].0 != Matching::Any && wildcard_free(bs[i].1),
    decreases bs.len(),
{
    if bs.len() > 0 {
        let t = bs.drop_first();
        lemma_wildcard_free_branches_all(t);
        if forall|i: int| 0 <= i < bs.len() ==> #[trigger] bs[i].0 != Matching::Any && wildcard_free(bs[i].1) {
            assert(bs[0].0 != Matching::Any && wildcard_free(bs[0].1));
            assert forall|i: int| 0 <= i < t.len() implies #[trigger] t[i].0 != Matching::Any && wildcard_free(t[i].1) by {
                assert(t[i] == bs[i + 1]);
            }
        }
        if wildcard_free_branches(bs) {
            assert forall|i: int| 0 <= i < bs.len() implies #[trigger] bs[i].0 != Matching::Any && wildcard_free(bs[i].1) by {
                if i > 0 {
                    assert(t[i - 1] == bs[i]);
                }
            }
        }
    }
}

/// A removal keeps a store free of wildcards and its branch names unique.
proof fn lemma_remove_keeps_shape(t: ParTreeModel, key: Seq<char>)
    requires
        wildcard_free(t),
        unique_paths(t),
    ensures
        wildcard_free(remove_model(t, key).0),
        unique_paths(remove_model(t, key).0),
    decreases key.len(),
{
    lemma_split_once_shorter(key, '.');
    let t2 = remove_model(t, key).0;
    match split_once_spec(key, '.') {
        Some((comp, rem)) => {
            let bs = t.branches;
            lemma_first_w(bs, comp, 0);
            match first_w(bs, comp, 0) {
                Some(i) => {
                    let bs2 = t2.branches;
                    lemma_wildcard_free_at(bs, i);
                    lemma_unique_paths_at(bs, i);
                    lemma_remove_keeps_shape(bs[i].1, rem);
                    lemma_wildcard_free_branches_all(bs);
                    lemma_wildcard_free_branches_all(bs2);
                    lemma_unique_paths_branches_all(bs);
                    lemma_unique_paths_branches_all(bs2);
                    assert forall|j: int| 0 <= j < bs2.len() implies #[trigger] bs2[j].0 != Matching::Any && wildcard_free(bs2[j].1) by {
                        if j != i {
                            assert(bs2[j] == bs[j]);
                        }
                    }
                    assert forall|j: int| 0 <= j < bs2.len() implies unique_paths(#[trigger] bs2[j].1) by {
                        if j != i {
                            assert(bs2[j] == bs[j]);
                        }
                    }
                    assert forall|a: int, b: int| 0 <= a < b < bs2.len() implies #[trigger] bs2[a].0 != #[trigger] bs2[b].0 by {
                        assert(bs2[a].0 == bs[a].0 && bs2[b].0 == bs[b].0);
                    }
                    assert forall|a: int| 0 <= a < bs2.len() implies #[trigger] bs2[a].0 != Matching::Path(star()) by {
                        assert(bs2[a].0 == bs[a].0);
                    }
                },
                None => {},
            }
        },
        None => {},
    }
}

/// In a store without wildcards and with unique branch names, a reader finds
/// what a writer's path leads to.
proof fn lemma_read_is_written(t: ParTreeModel, key: Seq<char>)
    requires
        wildcard_free(t),
        unique_paths(t),
    ensures
        read_model(t, key) == read_written(t, key),
    decreases key.len(),
{
    lemma_split_once_shorter(key, '.');
    match split_once_spec(key, '.') {
        Some((comp, rem)) => {
            let bs = t.branches;
            lemma_first_w(bs, comp, 0);
            match first_w(bs, comp, 0) {
                Some(i) => {
                    lemma_wildcard_free_at(bs, i);
                    lemma_unique_paths_at(bs, i);
                    lemma_read_is_written(bs[i].1, rem);
                    assert forall|j: int| 0 <= j < bs.len() && j != i implies !matches_r(#[trigger] bs[j].0, comp) by {
                        lemma_wildcard_free_at(bs, j);
                        if j < i {
                            assert(bs[j].0 != bs[i].0);
                        } else {
                            assert(bs[i].0 != bs[j].0);
                        }
                    }
                    if read_model(bs[i].1, rem) is Some {
                        lemma_read_branches_first(bs, comp, rem, i);
                    } else {
                        lemma_branches_none_upto(bs, comp, rem);
                    }
                },
                None => {
                    assert forall|j: int| 0 <= j < bs.len() implies !matches_r(#[trigger] bs[j].0, comp) by {
                        lemma_wildcard_free_at(bs, j);
                    }
                    lemma_branches_none_upto(bs, comp, rem);
                },
            }
        },
        None => {},
    }
}

/// In a store without wildcards, built by writes, removing the entry under
/// `key` changes what a reader finds under no other key.
pub proof fn law_remove_keeps_other_readings(t: ParTreeModel, key: Seq<char>, other: Seq<char>)
    requires
        wildcard_free(t),
        unique_paths(t),
        other != key,
    ensures
        read_model(remove_model(t, key).0, other) == read_model(t, other),
{
    lemma_remove_keeps_shape(t, key);
    lemma_read_is_written(t, other);
    lemma_read_is_written(remove_model(t, key).0, other);
    law_remove_keeps_other_keys(t, key, other);
}

/// A removal reports whether there was something to remove: it says `true`
/// exactly when a writer's path under `key` led to an entry.
pub proof fn law_remove_reports_presence(t: ParTreeModel, key: Seq<char>)
    ensures
        remove_model(t, key).1 == (read_written(t, key) is Some),
    decreases key.len(),
{
    lemma_split_once_shorter(key, '.');
    match split_once_spec(key, '.') {
        Some((comp, rem)) => {
            match first_w(t.branches, comp, 0) {
                Some(i) => {
                    lemma_first_w(t.branches, comp, 0);
                    law_remove_reports_presence(t.branches[i].1, rem);
                },
                None => {},
            }
        },
        None => {},
    }
}

proof fn lemma_first_w_push(bs: Seq<(Matching, ParTreeModel)>, b: (Matching, ParTreeModel), comp: Seq<char>)
    requires
        !matches_w(b.0, comp),
    ensures
        first_w(bs.push(b), comp, 0) == first_w(bs, comp, 0),
{
    let cs = bs.push(b);
    lemma_first_w(bs, comp, 0);
    lemma_first_w(cs, comp, 0);
    match first_w(cs, comp, 0) {
        Some(k) => {
            assert(k < bs.len());
            assert(cs[k] == bs[k]);
            match first_w(bs, comp, 0) {
                Some(j) => {
                    if j < k {
                        assert(cs[j] == bs[j]);
                    }
                },
                None => {},
            }
        },
        None => {
            match first_w(bs, comp, 0) {
                Some(j) => {
                    assert(cs[j] == bs[j]);
                },
                None => {},
            }
        },
    }
}

/// A write under `key` leaves every other key as it was: in every store,
/// wildcards or not, the entry a writer's path leads to under any other key
/// is the same before and after.
pub proof fn law_write_keeps_other_keys(t: ParTreeModel, key: Seq<char>, value: Seq<char>, other: Seq<char>)
    requires
        other != key,
    ensures
        read_written(write_model(t, key, value).0, other) == read_written(t, other),
    decreases key.len(),
{
    lemma_split_once_shorter(key, '.');
    lemma_split_once_shorter(other, '.');
    let t2 = write_model(t, key, value).0;
    match split_once_spec(key, '.') {
        Some((comp, rem)) => {
            let bs = t.branches;
            let bs2 = t2.branches;
            lemma_first_w(bs, comp, 0);
            match first_w(bs, comp, 0) {
                Some(i) => {
                    assert forall|j: int| 0 <= j < bs.len() implies #[trigger] bs2[j].0 == bs[j].0 by {}
                    match split_once_spec(other, '.') {
                        Some((c2, r2)) => {
                            lemma_first_w_same_from(bs, bs2, c2, 0);
                            lemma_first_w(bs, c2, 0);
                            match first_w(bs, c2, 0) {
                                Some(j) => {
                                    if j == i {
                                        lemma_matches_w_same(bs[i].0, comp, c2);
                                        assert(r2 != rem);
                                        law_write_keeps_other_keys(bs[i].1, rem, value, r2);
                                        assert(bs2[i].1 == write_model(bs[i].1, rem, value).0);
                                    } else {
                                        assert(bs2[j] == bs[j]);
                                    }
                                },
                                None => {},
                            }
                        },
                        None => {},
                    }
                },
                None => {
                    let nb = (matching_for(comp), write_model(empty_par_tree(), rem, value).0);
                    assert(bs2 == bs.push(nb));
                    match split_once_spec(other, '.') {
                        Some((c2, r2)) => {
                            if c2 == comp {
                                lemma_first_w(bs2, c2, 0);
                                assert(matches_w(bs2[bs.len() as int].0, c2));
                                assert(first_w(bs2, c2, 0) == Some(bs.len() as int)) by {
                                    match first_w(bs2, c2, 0) {
                                        Some(k) => {
                                            if k < bs.len() {
                                                assert(bs2[k] == bs[k]);
                                            }
                                        },
                                        None => {},
                                    }
                                }
                                assert(r2 != rem);
                                law_write_keeps_other_keys(empty_par_tree(), rem, value, r2);
                                assert(read_written(empty_par_tree(), r2) is None) by {
                                    lemma_split_once_shorter(r2, '.');
                                    match split_once_spec(r2, '.') {
                                        Some((c3, r3)) => {
                                            lemma_first_w(empty_par_tree().branches, c3, 0);
                                        },
                                        None => {},
                                    }
                                }
                                assert(bs2[bs.len() as int].1 == write_model(empty_par_tree(), rem, value).0);
                                assert(read_written(t, other) is None);
                            } else {
                                lemma_first_w_push(bs, nb, c2);
                                lemma_first_w(bs, c2, 0);
                                match first_w(bs, c2, 0) {
                                    Some(j) => {
                                        assert(bs2[j] == bs[j]);
                                    },
                                    None => {},
                                }
                            }
                        },
                        None => {},
                    }
                },
            }
        },
        None => {
            match split_once_spec(other, '.') {
                Some((c2, r2)) => {
                    lemma_first_w_same_from(t.branches, t2.branches, c2, 0);
                },
                None => {},
            }
        },
    }
}

/// In every store, wildcards or not, a successful write of `value` under
/// `key` puts `value` where a writer's path under `key` leads; a refused
/// write leaves the store as it was.
pub proof fn law_write_then_written(t: ParTreeModel, key: Seq<char>, value: Seq<char>)
    ensures
        write_model(t, key, value).1 ==> read_written(write_model(t, key, value).0, key) == Some(value),
        !write_model(t, key, value).1 ==> write_model(t, key, value).0 == t,
    decreases key.len(),
{
    lemma_failed_write_unchanged(t, key, value);
    lemma_split_once_shorter(key, '.');
    match split_once_spec(key, '.') {
        Some((comp, rem)) => {
            let bs = t.branches;
            let t2 = write_model(t, key, value).0;
            let bs2 = t2.branches;
            lemma_first_w(bs, comp, 0);
            match first_w(bs, comp, 0) {
                Some(i) => {
                    law_write_then_written(bs[i].1, rem, value);
                    assert forall|j: int| 0 <= j < bs.len() implies #[trigger] bs2[j].0 == bs[j].0 by {}
                    lemma_first_w_same_from(bs, bs2, comp, 0);
                },
                None => {
                    law_write_then_written(empty_par_tree(), rem, value);
                    lemma_first_w(bs2, comp, 0);
                    assert(matches_w(bs2[bs.len() as int].0, comp));
                    assert(first_w(bs2, comp, 0) == Some(bs.len() as int)) by {
                        match first_w(bs2, comp, 0) {
                            Some(k) => {
                                if k < bs.len() {
                                    assert(bs2[k] == bs[k]);
                                }
                            },
                            None => {},
                        }
                    }
                },
            }
        },
        None => {},
    }
}

/// In a tree without wildcard branches, built by writes, nothing is found
/// under a key after its entry was removed.
pub proof fn law_remove_then_absent(t: ParTreeModel, key: Seq<char>)
    requires
        wildcard_free(t),
        unique_paths(t),
    ensures
        read_model(remove_model(t, key).0, key) is None,
    decreases key.len(),
{
    match split_once_spec(key, '.') {
        Some((comp, rem)) => {
            lemma_split_once_shorter(key, '.');
            let bs = t.branches;
            lemma_first_w(bs, comp, 0);
            let t2 = remove_model(t, key).0;
            let bs2 = t2.branches;
            match first_w(bs, comp, 0) {
                Some(i) => {
                    lemma_wildcard_free_at(bs, i);
                    lemma_unique_paths_at(t.branches, i);
                    law_remove_then_absent(bs[i].1, rem);
                    assert forall|j: int| 0 <= j < bs2.len()
                        implies !(matches_r(#[trigger] bs2[j].0, comp) && read_model(bs2[j].1, rem) is Some) by {
                        lemma_wildcard_free_at(bs, j);
                        if j != i {
                            assert(bs2[j] == bs[j]);
                            if i < j {
                                assert(bs[i].0 != bs[j].0);
                            } else {
                                assert(bs[j].0 != bs[i].0);
                            }
                        }
                    }
                    lemma_branches_none_upto(bs2, comp, rem);
                },
                None => {
                    assert forall|j: int| 0 <= j < bs2.len()
                        implies !(matches_r(#[trigger] bs2[j].0, comp) && read_model(bs2[j].1, rem) is Some) by {
                        lemma_wildcard_free_at(bs, j);
                    }
                    lemma_branches_none_upto(bs2, comp, rem);
                },
            }
        },
        None => {},
    }
}

/// A failed write leaves the tree as it was.
pub proof fn lemma_failed_write_unchanged(t: ParTreeModel, key: Seq<char>, value: Seq<char>)
    ensures
        !write_model(t, key, value).1 ==> write_model(t, key, value).0 == t,
    decreases key.len(),
{
    match split_once_spec(key, '.') {
        Some((comp, rem)) => {
            lemma_split_once_shorter(key, '.');
            match first_w(t.branches, comp, 0) {
                Some(i) => {
                    lemma_first_w(t.branches, comp, 0);
                    lemma_failed_write_unchanged(t.branches[i].1, rem, value);
                    if !write_model(t, key, value).1 {
                        assert(t.branches.update(i, (t.branches[i].0, t.branches[i].1)) =~= t.branches);
                    }
                },
                None => {
                    lemma_write_into_empty_succeeds(rem, value);
                },
            }
        },
        None => {},
    }
}

/// A write into an empty tree always succeeds.
pub proof fn lemma_write_into_empty_succeeds(key: Seq<char>, value: Seq<char>)
    ensures
        write_model(empty_par_tree(), key, value).1,
    decreases key.len(),
{
    match split_once_spec(key, '.') {
        Some((comp, rem)) => {
            lemma_split_once_shorter(key, '.');
            lemma_write_into_empty_succeeds(rem, value);
        },
        None => {},
    }
}

/// The line an entry exports: its full key, a colon and its value.
pub open spec fn export_line(path: Seq<char>, key: Seq<char>, value: Seq<char>) -> Seq<char> {
    path + seq!['.'] + key + seq![':', ' '] + value
}

/// The text of a matching: `*` for the wildcard.
pub open spec fn matching_text(m: Matching) -> Seq<char> {
    match m {
        Matching::Any => star(),
        Matching::Path(p) => p,
    }
}

/// The path below which the entries of a branch with matching `m` export.
pub open spec fn branch_path(path: Seq<char>, m: Matching) -> Seq<char> {
    if path.len() == 0 {
        matching_text(m)
    } else {
        path + seq!['.'] + matching_text(m)
    }
}

/// The lines the entries of the node `t` itself export below `path`.
pub open spec fn export_own(t: ParTreeModel, path: Seq<char>) -> Set<Seq<char>> {
    Set::new(|l: Seq<char>| exists|k: Seq<char>| #[trigger] t.pars.dom().contains(k) && l == export_line(path, k, t.pars[k].0))
}

/// The lines every entry of `t` exports below `path`, the node's own first.
pub open spec fn export_set(t: ParTreeModel, path: Seq<char>) -> Set<Seq<char>>
    decreases t, 1int,
{
    export_own(t, path).union(export_branches(t.branches, path))
}

/// The lines the entries of the branches `bs` export below `path`.
pub open spec fn export_branches(bs: Seq<(Matching, ParTreeModel)>, path: Seq<char>) -> Set<Seq<char>>
    decreases bs, 0int,
{
    if bs.len() == 0 {
        Set::empty()
    } else {
        export_branches(bs.drop_last(), path).union(export_set(bs.last().1, branch_path(path, bs.last().0)))
    }
}

proof fn lemma_export_branches_has(bs: Seq<(Matching, ParTreeModel)>, path: Seq<char>, i: int, l: Seq<char>)
    requires
        0 <= i < bs.len(),
        export_set(bs[i].1, branch_path(path, bs[i].0)).contains(l),
    ensures
        export_branches(bs, path).contains(l),
    decreases bs.len(),
{
    if i < bs.len() - 1 {
        assert(bs.drop_last()[i] == bs[i]);
        lemma_export_branches_has(bs.drop_last(), path, i, l);
    }
}

/// A writer's element is the text of the branch it takes.
proof fn lemma_matching_text_of(m: Matching, comp: Seq<char>)
    requires
        matches_w(m, comp),
    ensures
        matching_text(m) == comp,
{
}

/// Below a non-empty `path`, a successful write of `value` under `key`
/// exports the line `path.key: value`.
proof fn lemma_written_line_below(t: ParTreeModel, path: Seq<char>, key: Seq<char>, value: Seq<char>)
    requires
        path.len() > 0,
        write_model(t, key, value).1,
    ensures
        export_set(write_model(t, key, value).0, path).contains(path + seq!['.'] + key + seq![':', ' '] + value),
    decreases key.len(),
{
    lemma_split_once_shorter(key, '.');
    let t2 = write_model(t, key, value).0;
    let line = path + seq!['.'] + key + seq![':', ' '] + value;
    match split_once_spec(key, '.') {
        Some((comp, rem)) => {
            let bs = t.branches;
            lemma_first_w(bs, comp, 0);
            let i = match first_w(bs, comp, 0) {
                Some(i) => i,
                None => bs.len() as int,
            };
            let m = t2.branches[i].0;
            let sub = t2.branches[i].1;
            assert(sub == write_model(if i < bs.len() { bs[i].1 } else { empty_par_tree() }, rem, value).0);
            assert(matching_text(m) == comp) by {
                if i < bs.len() {
                    lemma_matching_text_of(bs[i].0, comp);
                }
            }
            let cp = branch_path(path, m);
            assert(cp == path + seq!['.'] + comp);
            if i < bs.len() {
                lemma_written_line_below(bs[i].1, cp, rem, value);
            } else {
                lemma_written_line_below(empty_par_tree(), cp, rem, value);
            }
            assert(cp + seq!['.'] + rem + seq![':', ' '] + value =~= line);
            lemma_export_branches_has(t2.branches, path, i, line);
        },
        None => {
            assert(t2.pars.dom().contains(key) && t2.pars[key].0 == value);
            assert(export_own(t2, path).contains(line)) by {
                assert(line == export_line(path, key, t2.pars[key].0));
            }
        },
    }
}

/// Export gives back the keys that were written: after a successful write of
/// `value` under a dotted `key` whose first element is not empty, the export
/// of the store holds the line `key: value`, the key written out in full.
pub proof fn law_written_key_exported(t: ParTreeModel, key: Seq<char>, value: Seq<char>)
    requires
        write_model(t, key, value).1,
        split_once_spec(key, '.') matches Some((first, rest)) && first.len() > 0,
    ensures
        export_set(write_model(t, key, value).0, Seq::empty()).contains(key + seq![':', ' '] + value),
{
    lemma_split_once_shorter(key, '.');
    let (comp, rem) = split_once_spec(key, '.')->0;
    let t2 = write_model(t, key, value).0;
    let line = key + seq![':', ' '] + value;
    let bs = t.branches;
    lemma_first_w(bs, comp, 0);
    let i = match first_w(bs, comp, 0) {
        Some(i) => i,
        None => bs.len() as int,
    };
    let m = t2.branches[i].0;
    assert(matching_text(m) == comp) by {
        if i < bs.len() {
            lemma_matching_text_of(bs[i].0, comp);
        }
    }
    let cp = branch_path(Seq::empty(), m);
    assert(cp == comp);
    if i < bs.len() {
        lemma_written_line_below(bs[i].1, cp, rem, value);
    } else {
        lemma_written_line_below(empty_par_tree(), cp, rem, value);
    }
    assert(cp + seq!['.'] + rem + seq![':', ' '] + value =~= line);
    lemma_export_branches_has(t2.branches, Seq::empty(), i, line);
}

/// The texts of a list of lines.
pub open spec fn line_texts(v: Seq<String>) -> Seq<Seq<char>> {
    v.map_values(|l: String| l@)
}

/// The lines of the node's own entries, taken in the key order `ks`.
pub open spec fn own_lines(t: ParTreeModel, path: Seq<char>, ks: Seq<Seq<char>>) -> Seq<Seq<char>> {
    ks.map_values(|k: Seq<char>| export_line(path, k, t.pars[k].0))
}

/// `lines` are the lines of `t` below `path` in the order they are written:
/// first one line for each entry of the node itself, every key exactly
/// once (in some order), then the lines of each branch, branch by branch.
pub open spec fn exported(t: ParTreeModel, path: Seq<char>, lines: Seq<Seq<char>>) -> bool
    decreases t, 1int,
{
    exists|ks: Seq<Seq<char>>|
        #![trigger own_lines(t, path, ks)]
        ks.no_duplicates() && ks.to_set() == t.pars.dom() && ks.len() <= lines.len()
            && lines.take(ks.len() as int) == own_lines(t, path, ks)
            && exported_branches(t.branches, path, lines.skip(ks.len() as int))
}

/// `lines` are the lines of the branches `bs` below `path`, branch by branch.
pub open spec fn exported_branches(bs: Seq<(Matching, ParTreeModel)>, path: Seq<char>, lines: Seq<Seq<char>>) -> bool
    decreases bs, 0int,
{
    if bs.len() == 0 {
        lines.len() == 0
    } else {
        exists|k: int|
            #![trigger lines.take(k)]
            0 <= k <= lines.len() && exported_branches(bs.drop_last(), path, lines.take(k))
                && exported(bs.last().1, branch_path(path, bs.last().0), lines.skip(k))
    }
}

/// How a stored branch matches key elements.
#[derive(Debug)]
pub enum ParTreePathMatching {
    Any,
    Path(String),
}

/// A branch of the stored tree.
#[derive(Debug)]
pub struct ParTreeBranch {
    matching: ParTreePathMatching,
    node: ParTree,
}

/// A node of the stored tree.
#[derive(Debug)]
pub struct ParTree {
    branches: Vec<ParTreeBranch>,
    pars: StrKeyMap<(String, usize)>,
}

/// The model of a stored matching.
pub open spec fn matching_view(m: ParTreePathMatching) -> Matching {
    match m {
        ParTreePathMatching::Any => Matching::Any,
        ParTreePathMatching::Path(p) => Matching::Path(p@),
    }
}

/// The model of a stored tree.
pub closed spec fn par_tree_view(t: ParTree) -> ParTreeModel
    decreases t, 1int,
{
    ParTreeModel {
        branches: par_branches_view(t.branches@),
        pars: t.pars@.map_values(|e: (String, usize)| (e.0@, e.1)),
    }
}

/// The models of stored branches.
pub closed spec fn par_branches_view(bs: Seq<ParTreeBranch>) -> Seq<(Matching, ParTreeModel)>
    decreases bs, 0int,
{
    if bs.len() == 0 {
        Seq::empty()
    } else {
        seq![par_branch_view(bs[0])] + par_branches_view(bs.drop_first())
    }
}

/// The model of a stored branch.
pub closed spec fn par_branch_view(b: ParTreeBranch) -> (Matching, ParTreeModel)
    decreases b, 2int,
{
    (matching_view(b.matching), par_tree_view(b.node))
}

proof fn lemma_par_branches_view(bs: Seq<ParTreeBranch>)
    ensures
        par_branches_view(bs).len() == bs.len(),
        forall|i: int| 0 <= i < bs.len() ==> #[trigger] par_branches_view(bs)[i] == par_branch_view(bs[i]),
    decreases bs.len(),
{
    if bs.len() > 0 {
        lemma_par_branches_view(bs.drop_first());
        assert forall|i: int| 0 <= i < bs.len() implies #[trigger] par_branches_view(bs)[i] == par_branch_view(bs[i]) by {
            if i > 0 {
                assert(bs.drop_first()[i - 1] == bs[i]);
            }
        }
    }
}

proof fn lemma_par_branches_view_update(bs: Seq<ParTreeBranch>, i: int, b: ParTreeBranch)
    requires
        0 <= i < bs.len(),
    ensures
        par_branches_view(bs.update(i, b)) == par_branches_view(bs).update(i, par_branch_view(b)),
{
    lemma_par_branches_view(bs);
    lemma_par_branches_view(bs.update(i, b));
    assert(par_branches_view(bs.update(i, b)) =~= par_branches_view(bs).update(i, par_branch_view(b)));
}

proof fn lemma_par_branches_view_push(bs: Seq<ParTreeBranch>, b: ParTreeBranch)
    ensures
        par_branches_view(bs.push(b)) == par_branches_view(bs).push(par_branch_view(b)),
{
    lemma_par_branches_view(bs);
    lemma_par_branches_view(bs.push(b));
    assert(par_branches_view(bs.push(b)) =~= par_branches_view(bs).push(par_branch_view(b)));
}

impl ParTreePathMatching {
    /// Whether a writer of element `key` takes a branch with this matching.
    pub fn matches_w(&self, key: &str) -> (r: bool)
        ensures
            r == matches_w(matching_view(*self), key@),
    {
        match self {
            ParTreePathMatching::Any => is_star(key),
            ParTreePathMatching::Path(path) => str_eq(path.as_str(), key),
        }
    }

    /// Whether a reader of element `key` takes a branch with this matching.
    pub fn matches_r(&self, key: &str) -> (r: bool)
        ensures
            r == matches_r(matching_view(*self), key@),
    {
        match self {
            ParTreePathMatching::Any => true,
            ParTreePathMatching::Path(path) => str_eq(path.as_str(), key),
        }
    }
}

/// The path below which the entries of a branch with matching `m` export.
fn branch_path_of(path: &str, m: &ParTreePathMatching) -> (r: String)
    ensures
        r@ == branch_path(path@, matching_view(*m)),
{
    let mut out = String::from_str(path);
    if !path.is_empty() {
        out.append(".");
    }
    match m {
        ParTreePathMatching::Any => out.append("*"),
        ParTreePathMatching::Path(p) => out.append(p.as_str()),
    }
    proof {
        reveal_strlit(".");
        reveal_strlit("*");
        if path@.len() == 0 {
            assert(out@ =~= branch_path(path@, matching_view(*m)));
        } else {
            assert(out@ =~= branch_path(path@, matching_view(*m)));
        }
    }
    out
}

impl ParTree {
    pub closed spec fn view(&self) -> ParTreeModel {
        par_tree_view(*self)
    }

    /// A tree with no branches and no entries.
    pub fn new() -> (r: ParTree)
        ensures
            r@ == empty_par_tree(),
    {
        let r = ParTree { branches: Vec::new(), pars: StrKeyMap::new() };
        proof {
            assert(r.branches@ =~= Seq::<ParTreeBranch>::empty());
            assert(r.pars@.map_values(|e: (String, usize)| (e.0@, e.1)) =~= Map::<Seq<char>, (Seq<char>, usize)>::empty());
        }
        r
    }

    /// The value a reader finds under `key`, without taking a lock on it.
    pub fn peek(&self, key: &str) -> (r: Option<String>)
        ensures
            match r {
                Some(v) => read_model(self@, key@) == Some(v@),
                None => read_model(self@, key@) is None,
            },
        decreases self,
    {
        match split_once(key, '.') {
            Some((comp, rem)) => {
                let ghost bv = par_branches_view(self.branches@);
                proof {
                    lemma_par_branches_view(self.branches@);
                }
                let n = self.branches.len();
                let mut i: usize = 0;
                while i < n
                    invariant
                        n == self.branches@.len() == bv.len(),
                        bv == par_branches_view(self.branches@),
                        forall|j: int| 0 <= j < bv.len() ==> #[trigger] bv[j] == par_branch_view(self.branches@[j]),
                        i <= n,
                        forall|j: int| 0 <= j < i ==> !(matches_r(#[trigger] bv[j].0, comp@) && read_model(bv[j].1, rem@) is Some),
                        self@.branches == bv,
                        split_once_spec(key@, '.') == Some((comp@, rem@)),
                    decreases n - i,
                {
                    let branch = &self.branches[i];
                    if branch.matching.matches_r(comp) {
                        let found = branch.node.peek(rem);
                        if found.is_some() {
                            proof {
                                lemma_branches_found_at(bv, comp@, rem@, 0, true, i as int);
                            }
                            return found;
                        }
                    }
                    i = i + 1;
                }
                proof {
                    lemma_branches_none_upto(bv, comp@, rem@);
                }
                None
            },
            None => match self.pars.get(key) {
                Some(entry) => Some(entry.0.clone()),
                None => None,
            },
        }
    }

    /// Appends the lines of every entry below `path` to `out`: for each
    /// entry its full key, a colon and its value; the node's own entries
    /// first, each once, then those of each branch in turn.
    pub fn export(&self, out: &mut Vec<String>, path: &str)
        ensures
            line_texts(final(out)@).to_set()
                == line_texts(old(out)@).to_set().union(export_set(self@, path@)),
            old(out)@.len() <= final(out)@.len(),
            final(out)@.take(old(out)@.len() as int) == old(out)@,
            exported(self@, path@, line_texts(final(out)@).skip(old(out)@.len() as int)),
        decreases self,
    {
        let ghost start = line_texts(out@).to_set();
        let ghost out0 = out@;
        let n = self.pars.len();
        let ghost pars_view = self@.pars;
        let ghost es = self.pars.entries_spec();
        let ghost own = Seq::new(n as nat, |j: int| export_line(path@, es[j].0, es[j].1.0@));
        let mut i: usize = 0;
        while i < n
            invariant
                n == self.pars.spec_len(),
                es == self.pars.entries_spec(),
                own == Seq::new(n as nat, |j: int| export_line(path@, es[j].0, es[j].1.0@)),
                i <= n,
                keys_distinct(self.pars.entries_spec()),
                entries_map(self.pars.entries_spec()) == self.pars@,
                pars_view == self@.pars,
                pars_view == self.pars@.map_values(|e: (String, usize)| (e.0@, e.1)),
                out@.len() == out0.len() + i,
                out@.take(out0.len() as int) == out0,
                line_texts(out@).skip(out0.len() as int) == own.take(i as int),
                line_texts(out@).to_set() == start.union(Set::new(|l: Seq<char>|
                    exists|j: int| 0 <= j < i && l == export_line(path@, self.pars.entries_spec()[j].0, self.pars.entries_spec()[j].1.0@))),
            decreases n - i,
        {
            let key = self.pars.key_at(i);
            let entry = self.pars.value_at(i);
            let mut line = String::from_str(path);
            line.append(".");
            line.append(key);
            line.append(": ");
            line.append(entry.0.as_str());
            let ghost before = out@;
            out.push(line);
            proof {
                reveal_strlit(".");
                reveal_strlit(": ");
                assert(line@ == export_line(path@, es[i as int].0, es[i as int].1.0@));
                assert(line_texts(out@) =~= line_texts(before).push(line@));
                line_texts(before).lemma_push_to_set_commute(line@);
                assert(line_texts(out@).to_set() =~= start.union(Set::new(|l: Seq<char>|
                    exists|j: int| 0 <= j < i + 1 && l == export_line(path@, es[j].0, es[j].1.0@))));
                assert(out@.take(out0.len() as int) =~= out0);
                assert(line_texts(before).skip(out0.len() as int) == own.take(i as int));
                assert(line_texts(out@).skip(out0.len() as int) =~= own.take(i as int + 1)) by {
                    assert forall|j: int| 0 <= j < i + 1 implies
                        #[trigger] line_texts(out@).skip(out0.len() as int)[j] == own.take(i as int + 1)[j] by {
                        if j < i {
                            assert(line_texts(before).skip(out0.len() as int)[j] == own.take(i as int)[j]);
                        }
                    }
                }
            }
            i = i + 1;
        }
        let ghost ks = Seq::new(n as nat, |j: int| es[j].0);
        proof {
            assert(Set::new(|l: Seq<char>| exists|j: int| 0 <= j < n && l == export_line(path@, es[j].0, es[j].1.0@))
                =~= export_own(self@, path@)) by {
                assert forall|l: Seq<char>| export_own(self@, path@).contains(l)
                    implies exists|j: int| 0 <= j < n && l == export_line(path@, es[j].0, es[j].1.0@) by {
                    let k = choose|k: Seq<char>| #[trigger] self@.pars.dom().contains(k) && l == export_line(path@, k, self@.pars[k].0);
                    assert(self.pars@.dom().contains(k));
                    let j = choose|j: int| 0 <= j < es.len() && es[j].0 == k;
                    lemma_entries_map_at(es, j);
                }
                assert forall|l: Seq<char>| (exists|j: int| 0 <= j < n && l == export_line(path@, es[j].0, es[j].1.0@))
                    implies export_own(self@, path@).contains(l) by {
                    let j = choose|j: int| 0 <= j < n && l == export_line(path@, es[j].0, es[j].1.0@);
                    lemma_entries_map_at(es, j);
                    assert(self@.pars.dom().contains(es[j].0));
                }
            }
            assert(ks.no_duplicates()) by {
                assert forall|a: int, b: int| 0 <= a < ks.len() && 0 <= b < ks.len() && a != b
                    implies ks[a] != ks[b] by {
                    assert(es[a].0 != es[b].0);
                }
            }
            assert(ks.to_set() =~= self@.pars.dom()) by {
                assert forall|k: Seq<char>| ks.to_set().contains(k) implies self@.pars.dom().contains(k) by {
                    let j = choose|j: int| 0 <= j < ks.len() && ks[j] == k;
                    lemma_entries_map_at(es, j);
                }
                assert forall|k: Seq<char>| self@.pars.dom().contains(k) implies ks.to_set().contains(k) by {
                    assert(self.pars@.dom().contains(k));
                    let j = choose|j: int| 0 <= j < es.len() && es[j].0 == k;
                    assert(ks[j] == k);
                }
            }
            assert(own_lines(self@, path@, ks) =~= own) by {
                assert forall|j: int| 0 <= j < n implies #[trigger] own_lines(self@, path@, ks)[j] == own[j] by {
                    lemma_entries_map_at(es, j);
                }
            }
            assert(own.take(n as int) =~= own);
        }
        let ghost after_own = line_texts(out@).to_set();
        let ghost out1 = out@;
        let ghost bv = par_branches_view(self.branches@);
        proof {
            lemma_par_branches_view(self.branches@);
            assert(line_texts(out@).skip(out1.len() as int) =~= Seq::<Seq<char>>::empty());
        }
        let m = self.branches.len();
        let mut b: usize = 0;
        while b < m
            invariant
                m == self.branches@.len() == bv.len(),
                bv == par_branches_view(self.branches@),
                forall|j: int| 0 <= j < bv.len() ==> #[trigger] bv[j] == par_branch_view(self.branches@[j]),
                self@.branches == bv,
                b <= m,
                out1.len() <= out@.len(),
                out@.take(out1.len() as int) == out1,
                exported_branches(bv.take(b as int), path@, line_texts(out@).skip(out1.len() as int)),
                line_texts(out@).to_set() == after_own.union(export_branches(bv.take(b as int), path@)),
            decreases m - b,
        {
            let branch = &self.branches[b];
            let child = branch_path_of(path, &branch.matching);
            proof {
                assert(bv[b as int] == par_branch_view(self.branches@[b as int]));
            }
            let ghost before = out@;
            branch.node.export(out, child.as_str());
            proof {
                let t = bv.take(b as int + 1);
                assert(t.drop_last() =~= bv.take(b as int));
                assert(t.last() == bv[b as int]);
                assert(line_texts(out@).to_set() =~= after_own.union(export_branches(t, path@)));
                assert(out@.take(out1.len() as int) =~= out1) by {
                    assert forall|j: int| 0 <= j < out1.len() implies #[trigger] out@.take(out1.len() as int)[j] == out1[j] by {
                        assert(out@.take(before.len() as int)[j] == before[j]);
                        assert(before.take(out1.len() as int)[j] == out1[j]);
                    }
                }
                let lines = line_texts(out@).skip(out1.len() as int);
                let k = before.len() - out1.len();
                assert(lines.take(k) =~= line_texts(before).skip(out1.len() as int)) by {
                    assert forall|j: int| 0 <= j < k implies #[trigger] lines.take(k)[j]
                        == line_texts(before).skip(out1.len() as int)[j] by {
                        assert(out@.take(before.len() as int)[out1.len() + j] == before[out1.len() + j]);
                    }
                }
                assert(lines.skip(k) =~= line_texts(out@).skip(before.len() as int));
                assert(exported_branches(t, path@, lines));
            }
            b = b + 1;
        }
        proof {
            assert(bv.take(m as int) =~= bv);
            assert(line_texts(out@).to_set() =~= start.union(export_set(self@, path@)));
            assert(out@.take(out0.len() as int) =~= out0) by {
                assert forall|j: int| 0 <= j < out0.len() implies #[trigger] out@.take(out0.len() as int)[j] == out0[j] by {
                    assert(out@.take(out1.len() as int)[j] == out1[j]);
                    assert(out1.take(out0.len() as int)[j] == out0[j]);
                }
            }
            let lines = line_texts(out@).skip(out0.len() as int);
            assert(lines.take(n as int) =~= own) by {
                assert forall|j: int| 0 <= j < n implies #[trigger] lines.take(n as int)[j] == own[j] by {
                    assert(out@.take(out1.len() as int)[out0.len() + j] == out1[out0.len() + j]);
                    assert(line_texts(out1).skip(out0.len() as int)[j] == own.take(n as int)[j]);
                }
            }
            assert(lines.skip(n as int) =~= line_texts(out@).skip(out1.len() as int));
            assert(own_lines(self@, path@, ks) == lines.take(ks.len() as int));
            assert(exported(self@, path@, lines));
        }
    }

    /// The value a reader finds under `key`, adding `inc` readers to its entry.
    pub fn get_rlock(&mut self, key: &str, inc: usize) -> (r: Option<String>)
        ensures
            match r {
                Some(v) => read_model(old(self)@, key@) == Some(v@),
                None => read_model(old(self)@, key@) is None,
            },
            final(self)@ == adjust_model(old(self)@, key@, inc, true),
    {
        self.step_lock(key, inc, true)
    }

    /// Takes one reader away from the entry a reader finds under `key`;
    /// whether there was such an entry.
    pub fn release_rlock(&mut self, key: &str) -> (r: bool)
        ensures
            r == read_model(old(self)@, key@) is Some,
            final(self)@ == adjust_model(old(self)@, key@, 1, false),
    {
        self.step_lock(key, 1, false).is_some()
    }

    /// Steps the reader count of the entry a reader finds under `key`.
    fn step_lock(&mut self, key: &str, inc: usize, up: bool) -> (r: Option<String>)
        ensures
            match r {
                Some(v) => read_model(old(self)@, key@) == Some(v@),
                None => read_model(old(self)@, key@) is None,
            },
            final(self)@ == adjust_model(old(self)@, key@, inc, up),
        decreases key@.len(),
    {
        proof {
            lemma_split_once_shorter(key@, '.');
        }
        match split_once(key, '.') {
            Some((comp, rem)) => {
                let ghost bv = par_branches_view(self.branches@);
                proof {
                    lemma_par_branches_view(self.branches@);
                }
                let n = self.branches.len();
                let mut i: usize = 0;
                while i < n
                    invariant
                        n == self.branches@.len() == bv.len(),
                        bv == par_branches_view(self.branches@),
                        forall|j: int| 0 <= j < bv.len() ==> #[trigger] bv[j] == par_branch_view(self.branches@[j]),
                        i <= n,
                        forall|j: int| 0 <= j < i ==> !(matches_r(#[trigger] bv[j].0, comp@) && read_model(bv[j].1, rem@) is Some),
                        self.pars == old(self).pars,
                        old(self)@.branches == bv,
                        split_once_spec(key@, '.') == Some((comp@, rem@)),
                        rem@.len() < key@.len(),
                    decreases n - i,
                {
                    if self.branches[i].matching.matches_r(comp) {
                        let ghost cur = self.branches@;
                        let found = self.branches[i].node.step_lock(rem, inc, up);
                        proof {
                            lemma_par_branches_view_update(cur, i as int, self.branches@[i as int]);
                            assert(self.branches@ == cur.update(i as int, self.branches@[i as int]));
                        }
                        if found.is_some() {
                            proof {
                                lemma_branches_found_at(bv, comp@, rem@, inc, up, i as int);
                            }
                            return found;
                        } else {
                            proof {
                                lemma_adjust_absent(bv[i as int].1, rem@, inc, up);
                                assert(par_branches_view(self.branches@) =~= bv);
                                lemma_par_branches_view(self.branches@);
                            }
                        }
                    }
                    i = i + 1;
                }
                proof {
                    lemma_branches_none_upto(bv, comp@, rem@);
                    lemma_adjust_branches_absent(bv, comp@, rem@, inc, up);
                }
                None
            },
            None => {
                let found = match self.pars.get(key) {
                    Some(entry) => Some((entry.0.clone(), entry.1)),
                    None => None,
                };
                match found {
                    Some((value, lock)) => {
                        let stepped = if up { lock.wrapping_add(inc) } else { lock.wrapping_sub(inc) };
                        self.pars.insert(String::from_str(key), (value.clone(), stepped));
                        proof {
                            assert(self@.pars =~= old(self)@.pars.insert(key@, (value@, count_step(lock, inc, up))));
                            assert(self@.branches == old(self)@.branches);
                        }
                        Some(value)
                    },
                    None => None,
                }
            },
        }
    }

    /// Writes `value` under `key`; whether it was stored.
    pub fn insert(&mut self, key: &str, value: String) -> (r: bool)
        ensures
            (final(self)@, r) == write_model(old(self)@, key@, value@),
        decreases key@.len(),
    {
        proof {
            lemma_split_once_shorter(key@, '.');
        }
        match split_once(key, '.') {
            Some((comp, rem)) => {
                let ghost bs = self.branches@;
                let ghost bv = par_branches_view(bs);
                proof {
                    lemma_par_branches_view(bs);
                    lemma_first_w(bv, comp@, 0);
                }
                let n = self.branches.len();
                let mut i: usize = 0;
                while i < n
                    invariant
                        n == self.branches@.len() == bv.len(),
                        bs == self.branches@,
                        bv == par_branches_view(bs),
                        forall|j: int| 0 <= j < n ==> #[trigger] bv[j] == par_branch_view(bs[j]),
                        i <= n,
                        forall|j: int| 0 <= j < i ==> !matches_w(#[trigger] bv[j].0, comp@),
                    ensures
                        i <= n,
                        forall|j: int| 0 <= j < i ==> !matches_w(#[trigger] bv[j].0, comp@),
                        i < n ==> matches_w(bv[i as int].0, comp@),
                    decreases n - i,
                {
                    if self.branches[i].matching.matches_w(comp) {
                        break;
                    }
                    i = i + 1;
                }
                proof {
                    if i < n {
                        assert(first_w(bv, comp@, 0) == Some(i as int));
                    } else {
                        assert(first_w(bv, comp@, 0) is None);
                    }
                }
                if i < n {
                    let ok = self.branches[i].node.insert(rem, value);
                    proof {
                        lemma_par_branches_view_update(bs, i as int, self.branches@[i as int]);
                        assert(self.branches@ == bs.update(i as int, self.branches@[i as int]));
                    }
                    ok
                } else {
                    let mut node = ParTree::new();
                    let ok = node.insert(rem, value);
                    let matching = if is_star(comp) {
                        ParTreePathMatching::Any
                    } else {
                        ParTreePathMatching::Path(String::from_str(comp))
                    };
                    let branch = ParTreeBranch { matching, node };
                    let ghost b = branch;
                    self.branches.push(branch);
                    proof {
                        lemma_par_branches_view_push(bs, b);
                    }
                    ok
                }
            },
            None => {
                let lock = match self.pars.get(key) {
                    Some(entry) => entry.1,
                    None => 0,
                };
                if lock == 0 {
                    self.pars.insert(String::from_str(key), (value, 0));
                    proof {
                        assert(self@.pars =~= old(self)@.pars.insert(key@, (value@, 0usize)));
                        assert(self@.branches == old(self)@.branches);
                    }
                    true
                } else {
                    false
                }
            },
        }
    }

    /// Removes the entry under `key` along the writers' branches; whether there was one.
    pub fn remove(&mut self, key: &str) -> (r: bool)
        ensures
            (final(self)@, r) == remove_model(old(self)@, key@),
        decreases key@.len(),
    {
        proof {
            lemma_split_once_shorter(key@, '.');
        }
        match split_once(key, '.') {
            Some((comp, rem)) => {
                let ghost bs = self.branches@;
                let ghost bv = par_branches_view(bs);
                proof {
                    lemma_par_branches_view(bs);
                    lemma_first_w(bv, comp@, 0);
                }
                let n = self.branches.len();
                let mut i: usize = 0;
                while i < n
                    invariant
                        n == self.branches@.len() == bv.len(),
                        bs == self.branches@,
                        bv == par_branches_view(bs),
                        forall|j: int| 0 <= j < n ==> #[trigger] bv[j] == par_branch_view(bs[j]),
                        i <= n,
                        forall|j: int| 0 <= j < i ==> !matches_w(#[trigger] bv[j].0, comp@),
                    ensures
                        i <= n,
                        forall|j: int| 0 <= j < i ==> !matches_w(#[trigger] bv[j].0, comp@),
                        i < n ==> matches_w(bv[i as int].0, comp@),
                    decreases n - i,
                {
                    if self.branches[i].matching.matches_w(comp) {
                        break;
                    }
                    i = i + 1;
                }
                proof {
                    if i < n {
                        assert(first_w(bv, comp@, 0) == Some(i as int));
                    } else {
                        assert(first_w(bv, comp@, 0) is None);
                    }
                }
                if i < n {
                    let ok = self.branches[i].node.remove(rem);
                    proof {
                        lemma_par_branches_view_update(bs, i as int, self.branches@[i as int]);
                        assert(self.branches@ == bs.update(i as int, self.branches@[i as int]));
                    }
                    ok
                } else {
                    false
                }
            },
            None => {
                let removed = self.pars.remove(key);
                proof {
                    assert(self@.pars =~= old(self)@.pars.remove(key@));
                    assert(self@.branches == old(self)@.branches);
                }
                removed.is_some()
            },
        }
    }
}

/// A storage for all parameters associated with a simulation.
#[derive(Debug)]
pub struct ParMap {
    tree: ParTree,
}

impl ParMap {
    /// The parameter tree.
    pub closed spec fn model(&self) -> ParTreeModel {
        self.tree@
    }

    /// An empty store.
    pub fn new() -> (r: ParMap)
        ensures
            r.model() == empty_par_tree(),
    {
        ParMap { tree: ParTree::new() }
    }

    /// The value a reader finds under `key`, without taking a lock on it.
    pub fn peek(&self, key: &str) -> (r: Option<String>)
        ensures
            match r {
                Some(v) => read_model(self.model(), key@) == Some(v@),
                None => read_model(self.model(), key@) is None,
            },
    {
        self.tree.peek(key)
    }

    /// The value a reader finds under `key`, adding `inc` readers to its entry.
    pub fn get_rlock(&mut self, key: &str, inc: usize) -> (r: Option<String>)
        ensures
            match r {
                Some(v) => read_model(old(self).model(), key@) == Some(v@),
                None => read_model(old(self).model(), key@) is None,
            },
            final(self).model() == adjust_model(old(self).model(), key@, inc, true),
    {
        self.tree.get_rlock(key, inc)
    }

    /// Takes one reader away from the entry a reader finds under `key`.
    pub fn release_rlock(&mut self, key: &str)
        requires
            read_model(old(self).model(), key@) is Some,
        ensures
            final(self).model() == adjust_model(old(self).model(), key@, 1, false),
    {
        let done = self.tree.release_rlock(key);
        assert(done);
    }

    /// Writes `value` under `key`; whether it was stored (an entry held by
    /// readers is not overwritten).
    pub fn insert(&mut self, key: &str, value: String) -> (r: bool)
        ensures
            (final(self).model(), r) == write_model(old(self).model(), key@, value@),
    {
        self.tree.insert(key, value)
    }

    /// Removes the entry under `key`.
    pub fn remove(&mut self, key: &str)
        ensures
            final(self).model() == remove_model(old(self).model(), key@).0,
    {
        self.tree.remove(key);
    }

    /// The lines of every entry of the store: its full key, a colon and
    /// its value; at each node its own entries first, each once, then
    /// those of each branch in turn.
    pub fn export(&self) -> (r: Vec<String>)
        ensures
            line_texts(r@).to_set() == export_set(self.model(), Seq::empty()),
            exported(self.model(), Seq::empty(), line_texts(r@)),
    {
        let mut out: Vec<String> = Vec::new();
        proof {
            assert(out@.map_values(|l: String| l@).to_set() =~= Set::<Seq<char>>::empty());
        }
        let root = "";
        proof {
            reveal_strlit("");
            assert(root@ =~= Seq::<char>::empty());
        }
        self.tree.export(&mut out, root);
        proof {
            assert(out@.map_values(|l: String| l@).to_set() =~= export_set(self.model(), Seq::empty()));
            assert(line_texts(out@).skip(0) =~= line_texts(out@));
        }
        out
    }
}

impl Default for ParMap {
    fn default() -> (r: Self)
        ensures
            r.model() == empty_par_tree(),
    {
        ParMap::new()
    }
}

/// The states a [`Par`] can be in.
pub trait ParState {}

/// The state of a [`Par`] where its not decided
/// whether data is contained or not. Useful for writing data
/// to not yet initalized parameters.
#[derive(Debug, Clone, Copy, PartialEq, Eq, Hash)]
pub struct Optional;

impl ParState for Optional {}

/// The state of a [`Par`] where the contents are guaranteed
/// to be there, thus allowing derefs on the handle.
#[derive(Debug, Clone, Copy, PartialEq, Eq, Hash)]
pub struct Exists;

impl ParState for Exists {}

/// Errors that can occur in combination with [`Par`] objects.
#[derive(Debug, Clone, Copy, PartialEq, Eq, Structural, Hash)]
pub enum ParError {
    /// This error occures if a write operation failed, since a write lock could
    /// not be aquired.
    CouldNotAquireWriteLock,
}

/// A handle to a parameter associated to a node within the simulation.
///
/// A handle that holds a value also holds a reader's lock on its entry,
/// which [`Par::release`] gives back.
#[derive(Debug)]
pub struct Par<S: ParState = Optional> {
    key: String,
    value: Option<String>,
    _phantom: PhantomData<S>,
}

/// The key of the parameter `key` of the node at path `module`.
pub open spec fn par_key(key: Seq<char>, module: Seq<char>) -> Seq<char> {
    if module.len() == 0 { key } else { module + seq!['.'] + key }
}

/// The store after a handle that holds a value (and thus a lock) is given up.
pub open spec fn after_release(m: ParTreeModel, key: Seq<char>, held: bool) -> ParTreeModel {
    if held { adjust_model(m, key, 1, false) } else { m }
}

impl Par<Optional> {
    /// A handle to the parameter `key` of the node at path `module`.
    pub fn new(key: &str, module: &str) -> (r: Par)
        ensures
            r.key_text() == par_key(key@, module@),
            r.value_text() is None,
    {
        if module.is_empty() {
            Par { key: String::from_str(key), value: None, _phantom: PhantomData }
        } else {
            let mut full = String::from_str(module);
            full.append(".");
            full.append(key);
            proof {
                reveal_strlit(".");
                assert(full@ =~= module@ + seq!['.'] + key@);
            }
            Par { key: full, value: None, _phantom: PhantomData }
        }
    }
}

impl<S: ParState> Par<S> {
    /// The full key of the parameter.
    pub closed spec fn key_text(&self) -> Seq<char> {
        self.key@
    }

    /// The value the handle holds, if any.
    pub closed spec fn value_text(&self) -> Option<Seq<char>> {
        match self.value {
            Some(v) => Some(v@),
            None => None,
        }
    }

    /// Whether the handle holds a value, and with it a reader's lock.
    pub open spec fn holds_lock(&self) -> bool {
        self.value_text() is Some
    }

    /// Gives up the handle, and with it the reader's lock it holds, if any.
    pub fn release(self, map: &mut ParMap)
        requires
            self.holds_lock() ==> read_model(old(map).model(), self.key_text()) is Some,
        ensures
            final(map).model() == after_release(old(map).model(), self.key_text(), self.holds_lock()),
    {
        if self.value.is_some() {
            map.release_rlock(self.key.as_str());
        }
    }

    /// Returns a handle holding the value, and a reader's lock on it,
    /// consuming self.
    pub fn expect(self, map: &mut ParMap, msg: &str) -> (r: Par<Exists>)
        requires
            read_model(old(map).model(), self.key_text()) is Some,
        ensures
            r.key_text() == self.key_text(),
            r.value_text() == read_model(old(map).model(), self.key_text()),
            final(map).model() == after_release(
                adjust_model(old(map).model(), self.key_text(), 1, true),
                self.key_text(),
                self.holds_lock(),
            ),
    {
        let value = map.get_rlock(self.key.as_str(), 1);
        proof {
            law_locks_keep_values(old(map).model(), self.key@, 1, true, self.key@);
        }
        let r = Par { key: self.key.clone(), value, _phantom: PhantomData };
        self.release(map);
        r
    }

    /// Returns a handle holding the value, consuming self.
    pub fn unwrap(self, map: &mut ParMap) -> (r: Par<Exists>)
        requires
            read_model(old(map).model(), self.key_text()) is Some,
        ensures
            r.key_text() == self.key_text(),
            r.value_text() == read_model(old(map).model(), self.key_text()),
            final(map).model() == after_release(
                adjust_model(old(map).model(), self.key_text(), 1, true),
                self.key_text(),
                self.holds_lock(),
            ),
    {
        self.expect(map, "called `Par::unwrap` on a parameter that does not exist")
    }

    /// Indicates whether the handle contains a value.
    pub fn is_some(&self, map: &ParMap) -> (r: bool)
        ensures
            r == (self.holds_lock() || read_model(map.model(), self.key_text()) is Some),
    {
        if self.value.is_some() {
            return true;
        }
        map.peek(self.key.as_str()).is_some()
    }

    /// Indicates whether the handle contains a value.
    pub fn is_none(&self, map: &ParMap) -> (r: bool)
        ensures
            r == !(self.holds_lock() || read_model(map.model(), self.key_text()) is Some),
    {
        !self.is_some(map)
    }

    /// Returns the contained value optionaly, thereby losing the
    /// ability to set the par.
    pub fn as_option(self, map: &mut ParMap) -> (r: Option<String>)
        requires
            self.holds_lock() ==> read_model(old(map).model(), self.key_text()) is Some,
        ensures
            match r {
                Some(v) => read_model(old(map).model(), self.key_text()) == Some(v@),
                None => read_model(old(map).model(), self.key_text()) is None,
            },
            final(map).model() == after_release(old(map).model(), self.key_text(), self.holds_lock()),
    {
        let r = map.peek(self.key.as_str());
        self.release(map);
        r
    }

    /// Sets the parameter to the given value (in its string form).
    pub fn set(self, map: &mut ParMap, value: &str) -> (r: Result<Par<Exists>, ParError>)
        requires
            self.holds_lock() ==> read_model(old(map).model(), self.key_text()) is Some,
        ensures
            ({
                let (written, ok) = write_model(old(map).model(), self.key_text(), value@);
                match r {
                    Ok(p) => ok && p.key_text() == self.key_text()
                        && p.value_text() == read_model(written, self.key_text())
                        && final(map).model() == after_release(
                            adjust_model(written, self.key_text(), 1, true),
                            self.key_text(),
                            self.holds_lock(),
                        ),
                    Err(e) => !ok && e == ParError::CouldNotAquireWriteLock
                        && final(map).model() == after_release(written, self.key_text(), self.holds_lock()),
                }
            }),
    {
        let ghost m0 = map.model();
        if map.insert(self.key.as_str(), String::from_str(value)) {
            proof {
                law_write_then_found(m0, self.key@, value@);
            }
            let got = map.get_rlock(self.key.as_str(), 1);
            proof {
                law_locks_keep_values(write_model(m0, self.key@, value@).0, self.key@, 1, true, self.key@);
            }
            let r = Par { key: self.key.clone(), value: got, _phantom: PhantomData };
            self.release(map);
            Ok(r)
        } else {
            proof {
                assert(write_model(m0, self.key@, value@).0 == m0) by {
                    lemma_failed_write_unchanged(m0, self.key@, value@);
                }
            }
            self.release(map);
            Err(ParError::CouldNotAquireWriteLock)
        }
    }

    /// Remove the entry from the par storage.
    ///
    /// Returns a `Par` object with optional (in this case None) content.
    pub fn unset(self, map: &mut ParMap) -> (r: Par<Optional>)
        requires
            self.holds_lock() ==> read_model(remove_model(old(map).model(), self.key_text()).0, self.key_text()) is Some,
        ensures
            r.key_text() == self.key_text(),
            r.value_text() is None,
            final(map).model() == after_release(
                remove_model(old(map).model(), self.key_text()).0,
                self.key_text(),
                self.holds_lock(),
            ),
    {
        map.remove(self.key.as_str());
        let r = Par { value: None, key: self.key.clone(), _phantom: PhantomData };
        self.release(map);
        r
    }
}

impl Par<Exists> {
    /// Uses a custom string parser to parse a string, timming
    /// quotation marks in the process.
    pub fn into_inner(&self) -> (r: String)
        requires
            self.holds_lock(),
        ensures
            r@ == strip_quotes(self.value_text()->0),
    {
        let parsed = self.value.as_ref().unwrap();
        let n = char_len(parsed.as_str());
        if n >= 2 && parsed.as_str().get_char(0) == '"' && parsed.as_str().get_char(n - 1) == '"' {
            substring(parsed.as_str(), 1, n - 1)
        } else {
            parsed.clone()
        }
    }
}

} // verus!
