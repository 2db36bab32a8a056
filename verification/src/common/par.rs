//! The parameter tree of the earlier network layer: keys are dot-separated
//! paths whose elements may be `*`, values are strings.
use vstd::prelude::*;
use vstd::string::*;
use crate::keyed::{StrKeyMap, keys_distinct, entries_map, lemma_entries_map_prefix};
use crate::strs::{split_once_spec, lemma_split_once_shorter, first_index_of, lemma_first_index_of, lemma_first_index_of_unique, split_once, star, is_star, str_eq, trim, trim_spec, char_len, substring};
use std::marker::PhantomData;

verus! {

/// How a branch of the tree is entered: by an exact element, or by `*`.
pub enum BranchKey {
    Path(Seq<char>),
    Any,
}

/// A parameter tree: its branches in order and the parameters stored at this node.
pub struct TreeModel {
    pub branches: Seq<(BranchKey, TreeModel)>,
    pub pars: Map<Seq<char>, Seq<char>>,
}

/// The tree with no branches and no parameters.
pub open spec fn empty_tree() -> TreeModel {
    TreeModel { branches: Seq::empty(), pars: Map::empty() }
}

/// The branch a writer takes for the element `ele`: `*` selects the wildcard
/// branch, any other element the branch of that name.
pub open spec fn write_matches(k: BranchKey, ele: Seq<char>) -> bool {
    match k {
        BranchKey::Path(p) => p == ele,
        BranchKey::Any => ele == star(),
    }
}

/// The key of a new branch for the element `ele`.
pub open spec fn key_for(ele: Seq<char>) -> BranchKey {
    if ele == star() { BranchKey::Any } else { BranchKey::Path(ele) }
}

/// The first branch, from position `i` on, that a writer takes for `ele`.
pub open spec fn first_write_match(bs: Seq<(BranchKey, TreeModel)>, ele: Seq<char>, i: int) -> Option<int>
    decreases bs.len() - i,
{
    if i < 0 || i >= bs.len() {
        None
    } else if write_matches(bs[i].0, ele) {
        Some(i)
    } else {
        first_write_match(bs, ele, i + 1)
    }
}

/// `key` split at its first dot, or the whole key and nothing.
pub open spec fn head_and_rest(key: Seq<char>) -> (Seq<char>, Seq<char>) {
    match split_once_spec(key, '.') {
        Some(parts) => parts,
        None => (key, Seq::empty()),
    }
}

/// The tree after storing `value` under the dotted `key`: each element but the
/// last selects (or creates, at the end) a branch; the last names the parameter.
pub open spec fn insert_model(t: TreeModel, key: Seq<char>, value: Seq<char>) -> TreeModel
    decreases key.len(),
{
    match split_once_spec(key, '.') {
        Some((ele, rem)) => {
            proof {
                lemma_split_once_shorter(key, '.');
            }
            match first_write_match(t.branches, ele, 0) {
                Some(i) => TreeModel {
                    branches: t.branches.update(
                        i,
                        (t.branches[i].0, insert_model(t.branches[i].1, rem, value)),
                    ),
                    pars: t.pars,
                },
                None => TreeModel {
                    branches: t.branches.push((key_for(ele), insert_model(empty_tree(), rem, value))),
                    pars: t.pars,
                },
            }
        },
        None => TreeModel { branches: t.branches, pars: t.pars.insert(key, value) },
    }
}

/// The value of parameter `key` for the object at `path`: at the end of the
/// path the node's own parameter; otherwise the first exactly named branch that
/// holds it, else the first wildcard branch that holds it.
pub open spec fn lookup_model(t: TreeModel, path: Seq<char>, key: Seq<char>) -> Option<Seq<char>>
    decreases t, 1int,
{
    if path.len() == 0 {
        if t.pars.dom().contains(key) {
            Some(t.pars[key])
        } else {
            None
        }
    } else {
        let (ele, rem) = head_and_rest(path);
        match lookup_exact(t.branches, ele, rem, key) {
            Some(v) => Some(v),
            None => lookup_any(t.branches, rem, key),
        }
    }
}

/// The first branch named exactly `ele` that holds `key` under `rem`.
pub open spec fn lookup_exact(
    bs: Seq<(BranchKey, TreeModel)>,
    ele: Seq<char>,
    rem: Seq<char>,
    key: Seq<char>,
) -> Option<Seq<char>>
    decreases bs, 0int,
{
    if bs.len() == 0 {
        None
    } else {
        let found = match bs[0].0 {
            BranchKey::Path(p) => if p == ele { lookup_model(bs[0].1, rem, key) } else { None },
            BranchKey::Any => None,
        };
        if found is Some {
            found
        } else {
            lookup_exact(bs.drop_first(), ele, rem, key)
        }
    }
}

/// The first wildcard branch that holds `key` under `rem`.
pub open spec fn lookup_any(bs: Seq<(BranchKey, TreeModel)>, rem: Seq<char>, key: Seq<char>) -> Option<Seq<char>>
    decreases bs, 0int,
{
    if bs.len() == 0 {
        None
    } else {
        let found = match bs[0].0 {
            BranchKey::Any => lookup_model(bs[0].1, rem, key),
            BranchKey::Path(_) => None,
        };
        if found is Some {
            found
        } else {
            lookup_any(bs.drop_first(), rem, key)
        }
    }
}

/// The parameters visible under `key`, added to `acc`: a node's own parameters
/// once the key is used up, then those found through every branch that the
/// key's next element reaches (wildcard branches always), in branch order,
/// later ones replacing earlier ones.
pub open spec fn collect_model(t: TreeModel, key: Seq<char>, acc: Map<Seq<char>, Seq<char>>) -> Map<Seq<char>, Seq<char>>
    decreases t, 1int,
{
    let acc1 = if key.len() == 0 { acc.union_prefer_right(t.pars) } else { acc };
    let (ele, rem) = head_and_rest(key);
    collect_branches(t.branches, ele, rem, acc1)
}

/// `collect_model` over the branches in order.
pub open spec fn collect_branches(
    bs: Seq<(BranchKey, TreeModel)>,
    ele: Seq<char>,
    rem: Seq<char>,
    acc: Map<Seq<char>, Seq<char>>,
) -> Map<Seq<char>, Seq<char>>
    decreases bs, 0int,
{
    if bs.len() == 0 {
        acc
    } else {
        let acc1 = match bs[0].0 {
            BranchKey::Any => collect_model(bs[0].1, rem, acc),
            BranchKey::Path(p) => if p == ele { collect_model(bs[0].1, rem, acc) } else { acc },
        };
        collect_branches(bs.drop_first(), ele, rem, acc1)
    }
}

/// The tree after one line of parameter text: `key = value` stores the trimmed
/// value under the trimmed key; a line without `=` changes nothing.
pub open spec fn apply_line(t: TreeModel, line: Seq<char>) -> TreeModel {
    match split_once_spec(line, '=') {
        Some((k, v)) => insert_model(t, trim_spec(k), trim_spec(v)),
        None => t,
    }
}

/// The tree after every line of `text`, in order.
pub open spec fn build_model(t: TreeModel, text: Seq<char>) -> TreeModel
    decreases text.len(),
{
    match split_once_spec(text, '\n') {
        Some((line, rest)) => {
            proof {
                lemma_split_once_shorter(text, '\n');
            }
            build_model(apply_line(t, line), rest)
        },
        None => apply_line(t, text),
    }
}

/// `s` without surrounding double quotes, where it has them.
pub open spec fn strip_quotes(s: Seq<char>) -> Seq<char> {
    if s.len() >= 2 && s[0] == '"' && s.last() == '"' {
        s.subrange(1, s.len() - 1)
    } else {
        s
    }
}

/// Branch keys occur at most once, and `*` is never an exact branch name.
pub open spec fn branch_keys_unique(bs: Seq<(BranchKey, TreeModel)>) -> bool {
    &&& forall|i: int, j: int| 0 <= i < j < bs.len() ==> #[trigger] bs[i].0 != #[trigger] bs[j].0
    &&& forall|i: int| 0 <= i < bs.len() ==> #[trigger] bs[i].0 != BranchKey::Path(star())
}

/// A tree as insertion builds it: at every node, branch keys are unique.
pub open spec fn wf_model(t: TreeModel) -> bool
    decreases t, 1int,
{
    branch_keys_unique(t.branches) && wf_branches(t.branches)
}

/// Every subtree of the branches is well formed.
pub open spec fn wf_branches(bs: Seq<(BranchKey, TreeModel)>) -> bool
    decreases bs, 0int,
{
    bs.len() == 0 || (wf_model(bs[0].1) && wf_branches(bs.drop_first()))
}

/// `path` and `key` joined by a dot, or just `key` at the root.
pub open spec fn join_key(path: Seq<char>, key: Seq<char>) -> Seq<char> {
    if path.len() == 0 { key } else { path + seq!['.'] + key }
}

/// A path that does not end in an empty element.
pub open spec fn path_without_trailing_dot(path: Seq<char>) -> bool {
    path.len() == 0 || path.last() != '.'
}

proof fn lemma_wf_branches_at(bs: Seq<(BranchKey, TreeModel)>, i: int)
    requires
        wf_branches(bs),
        0 <= i < bs.len(),
    ensures
        wf_model(bs[i].1),
    decreases bs.len(),
{
    if i > 0 {
        lemma_wf_branches_at(bs.drop_first(), i - 1);
        assert(bs.drop_first()[i - 1] == bs[i]);
    }
}

proof fn lemma_wf_branches_all(bs: Seq<(BranchKey, TreeModel)>)
    requires
        forall|i: int| 0 <= i < bs.len() ==> wf_model(#[trigger] bs[i].1),
    ensures
        wf_branches(bs),
    decreases bs.len(),
{
    if bs.len() > 0 {
        let t = bs.drop_first();
        assert forall|i: int| 0 <= i < t.len() implies wf_model(#[trigger] t[i].1) by {
            assert(t[i] == bs[i + 1]);
        }
        lemma_wf_branches_all(t);
    }
}

/// Insertion keeps a tree well formed.
pub proof fn lemma_insert_keeps_wf(t: TreeModel, key: Seq<char>, value: Seq<char>)
    requires
        wf_model(t),
    ensures
        wf_model(insert_model(t, key, value)),
    decreases key.len(),
{
    let bs = t.branches;
    match split_once_spec(key, '.') {
        Some((ele, rem)) => {
            lemma_split_once_shorter(key, '.');
            lemma_first_write_match(bs, ele, 0);
            let t2 = insert_model(t, key, value);
            let bs2 = t2.branches;
            match first_write_match(bs, ele, 0) {
                Some(i) => {
                    lemma_wf_branches_at(bs, i);
                    lemma_insert_keeps_wf(bs[i].1, rem, value);
                    assert forall|l: int| 0 <= l < bs2.len() implies wf_model(#[trigger] bs2[l].1) by {
                        if l != i {
                            lemma_wf_branches_at(bs, l);
                        }
                    }
                    lemma_wf_branches_all(bs2);
                    assert forall|a: int, b: int| 0 <= a < b < bs2.len() implies #[trigger] bs2[a].0 != #[trigger] bs2[b].0 by {
                        assert(bs2[a].0 == bs[a].0 && bs2[b].0 == bs[b].0);
                    }
                    assert forall|a: int| 0 <= a < bs2.len() implies #[trigger] bs2[a].0 != BranchKey::Path(star()) by {
                        assert(bs2[a].0 == bs[a].0);
                    }
                },
                None => {
                    lemma_insert_keeps_wf(empty_tree(), rem, value);
                    let n = bs.len() as int;
                    assert forall|l: int| 0 <= l < bs2.len() implies wf_model(#[trigger] bs2[l].1) by {
                        if l < n {
                            lemma_wf_branches_at(bs, l);
                            assert(bs2[l] == bs[l]);
                        }
                    }
                    lemma_wf_branches_all(bs2);
                    assert forall|a: int, b: int| 0 <= a < b < bs2.len() implies #[trigger] bs2[a].0 != #[trigger] bs2[b].0 by {
                        assert(bs2[a] == bs[a]);
                        if b < n {
                            assert(bs2[b] == bs[b]);
                        } else {
                            assert(!write_matches(bs[a].0, ele));
                        }
                    }
                    assert forall|a: int| 0 <= a < bs2.len() implies #[trigger] bs2[a].0 != BranchKey::Path(star()) by {
                        if a < n {
                            assert(bs2[a] == bs[a]);
                        }
                    }
                },
            }
        },
        None => {},
    }
}

proof fn lemma_first_write_match(bs: Seq<(BranchKey, TreeModel)>, ele: Seq<char>, i: int)
    requires
        0 <= i <= bs.len(),
    ensures
        match first_write_match(bs, ele, i) {
            Some(j) => i <= j < bs.len() && write_matches(bs[j].0, ele)
                && forall|l: int| i <= l < j ==> !write_matches(#[trigger] bs[l].0, ele),
            None => forall|l: int| i <= l < bs.len() ==> !write_matches(#[trigger] bs[l].0, ele),
        },
    decreases bs.len() - i,
{
    if i < bs.len() && !write_matches(bs[i].0, ele) {
        lemma_first_write_match(bs, ele, i + 1);
    }
}

proof fn lemma_lookup_exact_found(
    bs: Seq<(BranchKey, TreeModel)>,
    ele: Seq<char>,
    rem: Seq<char>,
    key: Seq<char>,
    i: int,
    v: Seq<char>,
)
    requires
        0 <= i < bs.len(),
        bs[i].0 == BranchKey::Path(ele),
        lookup_model(bs[i].1, rem, key) == Some(v),
        forall|l: int| 0 <= l < i ==> #[trigger] bs[l].0 != BranchKey::Path(ele),
    ensures
        lookup_exact(bs, ele, rem, key) == Some(v),
    decreases bs.len(),
{
    if i > 0 {
        let t = bs.drop_first();
        assert forall|l: int| 0 <= l < i - 1 implies #[trigger] t[l].0 != BranchKey::Path(ele) by {
            assert(t[l] == bs[l + 1]);
        }
        assert(bs[0].0 != BranchKey::Path(ele));
        lemma_lookup_exact_found(t, ele, rem, key, i - 1, v);
    }
}

proof fn lemma_lookup_exact_absent(bs: Seq<(BranchKey, TreeModel)>, ele: Seq<char>, rem: Seq<char>, key: Seq<char>)
    requires
        forall|l: int| 0 <= l < bs.len() ==> #[trigger] bs[l].0 != BranchKey::Path(ele),
    ensures
        lookup_exact(bs, ele, rem, key) is None,
    decreases bs.len(),
{
    if bs.len() > 0 {
        let t = bs.drop_first();
        assert forall|l: int| 0 <= l < t.len() implies #[trigger] t[l].0 != BranchKey::Path(ele) by {
            assert(t[l] == bs[l + 1]);
        }
        assert(bs[0].0 != BranchKey::Path(ele));
        lemma_lookup_exact_absent(t, ele, rem, key);
    }
}

proof fn lemma_lookup_any_found(
    bs: Seq<(BranchKey, TreeModel)>,
    rem: Seq<char>,
    key: Seq<char>,
    i: int,
    v: Seq<char>,
)
    requires
        0 <= i < bs.len(),
        bs[i].0 == BranchKey::Any,
        lookup_model(bs[i].1, rem, key) == Some(v),
        forall|l: int| 0 <= l < i ==> #[trigger] bs[l].0 != BranchKey::Any,
    ensures
        lookup_any(bs, rem, key) == Some(v),
    decreases bs.len(),
{
    if i > 0 {
        let t = bs.drop_first();
        assert forall|l: int| 0 <= l < i - 1 implies #[trigger] t[l].0 != BranchKey::Any by {
            assert(t[l] == bs[l + 1]);
        }
        assert(bs[0].0 != BranchKey::Any);
        lemma_lookup_any_found(t, rem, key, i - 1, v);
    }
}

proof fn lemma_split_joined(path: Seq<char>, key: Seq<char>)
    requires
        path.len() > 0,
        path_without_trailing_dot(path),
        !key.contains('.'),
    ensures
        split_once_spec(join_key(path, key), '.') == Some(
            (head_and_rest(path).0, join_key(head_and_rest(path).1, key)),
        ),
        head_and_rest(path).1.len() < path.len(),
        path_without_trailing_dot(head_and_rest(path).1),
{
    let j = join_key(path, key);
    crate::strs::lemma_first_index_of(path, '.');
    crate::strs::lemma_first_index_of(j, '.');
    lemma_split_once_shorter(path, '.');
    match crate::strs::first_index_of(path, '.') {
        Some(i) => {
            assert(j[i] == '.');
            assert forall|l: int| 0 <= l < i implies j[l] != '.' by {
                assert(j[l] == path[l]);
            }
            crate::strs::lemma_first_index_of_unique(j, '.', i);
            let rest = path.subrange(i + 1, path.len() as int);
            if rest.len() > 0 {
                assert(rest.last() == path.last());
                assert(j.subrange(i + 1, j.len() as int) =~= rest + seq!['.'] + key);
            } else {
                assert(path.last() == '.');
            }
            assert(j.subrange(0, i) =~= path.subrange(0, i));
        },
        None => {
            let n = path.len() as int;
            assert(j[n] == '.');
            assert forall|l: int| 0 <= l < n implies j[l] != '.' by {
                assert(j[l] == path[l]);
            }
            crate::strs::lemma_first_index_of_unique(j, '.', n);
            assert(j.subrange(0, n) =~= path);
            assert(j.subrange(n + 1, j.len() as int) =~= key);
        },
    }
}

proof fn lemma_collect_keeps(t: TreeModel, key: Seq<char>, acc: Map<Seq<char>, Seq<char>>)
    ensures
        acc.dom().subset_of(collect_model(t, key, acc).dom()),
    decreases t, 1int,
{
    let acc1 = if key.len() == 0 { acc.union_prefer_right(t.pars) } else { acc };
    let (ele, rem) = head_and_rest(key);
    lemma_collect_branches_keeps(t.branches, ele, rem, acc1);
}

proof fn lemma_collect_branches_keeps(
    bs: Seq<(BranchKey, TreeModel)>,
    ele: Seq<char>,
    rem: Seq<char>,
    acc: Map<Seq<char>, Seq<char>>,
)
    ensures
        acc.dom().subset_of(collect_branches(bs, ele, rem, acc).dom()),
    decreases bs, 0int,
{
    if bs.len() > 0 {
        let acc1 = match bs[0].0 {
            BranchKey::Any => collect_model(bs[0].1, rem, acc),
            BranchKey::Path(p) => if p == ele { collect_model(bs[0].1, rem, acc) } else { acc },
        };
        lemma_collect_keeps(bs[0].1, rem, acc);
        lemma_collect_branches_keeps(bs.drop_first(), ele, rem, acc1);
    }
}

proof fn lemma_collect_branches_has(
    bs: Seq<(BranchKey, TreeModel)>,
    ele: Seq<char>,
    rem: Seq<char>,
    key: Seq<char>,
    acc: Map<Seq<char>, Seq<char>>,
)
    requires
        lookup_exact(bs, ele, rem, key) is Some || lookup_any(bs, rem, key) is Some,
    ensures
        collect_branches(bs, ele, rem, acc).dom().contains(key),
    decreases bs, 0int,
{
    let reached = match bs[0].0 {
        BranchKey::Any => true,
        BranchKey::Path(p) => p == ele,
    };
    let acc1 = if reached { collect_model(bs[0].1, rem, acc) } else { acc };
    if reached && lookup_model(bs[0].1, rem, key) is Some {
        law_table_holds_readable(bs[0].1, rem, key, acc);
        lemma_collect_branches_keeps(bs.drop_first(), ele, rem, acc1);
    } else {
        lemma_collect_branches_has(bs.drop_first(), ele, rem, key, acc1);
    }
}

/// Every parameter a module can read is in its table: where looking up `key`
/// at `path` finds a value, collecting the parameters visible at `path`
/// (added to any `acc`) yields an entry for `key`. Parameters written through
/// a `*` element count as much as those written under the module's name.
pub proof fn law_table_holds_readable(t: TreeModel, path: Seq<char>, key: Seq<char>, acc: Map<Seq<char>, Seq<char>>)
    requires
        lookup_model(t, path, key) is Some,
    ensures
        collect_model(t, path, acc).dom().contains(key),
    decreases t, 1int,
{
    let (ele, rem) = head_and_rest(path);
    if path.len() == 0 {
        lemma_collect_branches_keeps(t.branches, ele, rem, acc.union_prefer_right(t.pars));
    } else {
        lemma_collect_branches_has(t.branches, ele, rem, key, acc);
    }
}

/// Parameter text is read line by line to its end: the text `a`, a newline
/// and `b` gives the store that reading `a`, then `b`, gives. So the last line
/// counts whether or not a newline follows it.
pub proof fn law_build_reads_every_line(t: TreeModel, a: Seq<char>, b: Seq<char>)
    ensures
        build_model(t, a + seq!['\n'] + b) == build_model(build_model(t, a), b),
    decreases a.len(),
{
    let s = a + seq!['\n'] + b;
    lemma_first_index_of(a, '\n');
    lemma_split_once_shorter(a, '\n');
    assert(s[a.len() as int] == '\n');
    match first_index_of(a, '\n') {
        Some(i) => {
            assert forall|j: int| 0 <= j < i implies s[j] != '\n' by {
                assert(s[j] == a[j]);
            }
            assert(s[i] == a[i]);
            lemma_first_index_of_unique(s, '\n', i);
            let line = a.subrange(0, i);
            let a2 = a.subrange(i + 1, a.len() as int);
            assert(s.subrange(0, i) =~= line);
            assert(s.subrange(i + 1, s.len() as int) =~= a2 + seq!['\n'] + b);
            law_build_reads_every_line(apply_line(t, line), a2, b);
        },
        None => {
            assert forall|j: int| 0 <= j < a.len() implies s[j] != '\n' by {
                assert(s[j] == a[j]);
            }
            lemma_first_index_of_unique(s, '\n', a.len() as int);
            assert(s.subrange(0, a.len() as int) =~= a);
            assert(s.subrange(a.len() as int + 1, s.len() as int) =~= b);
        },
    }
}

/// A newline at the end of parameter text changes nothing: the last line is
/// read either way.
pub proof fn law_build_trailing_newline(t: TreeModel, text: Seq<char>)
    ensures
        build_model(t, text + seq!['\n']) == build_model(t, text),
{
    law_build_reads_every_line(t, text, Seq::empty());
    assert(text + seq!['\n'] + Seq::<char>::empty() =~= text + seq!['\n']);
    let u = build_model(t, text);
    assert(split_once_spec(Seq::<char>::empty(), '\n') is None);
    assert(split_once_spec(Seq::<char>::empty(), '=') is None);
    assert(build_model(u, Seq::empty()) == u);
}

/// A parameter text's last line takes effect, newline or not: when the text
/// ends in the line `path.key = value` (spaces around either side allowed),
/// after other lines or alone, looking up `key` at `path` afterwards finds
/// the trimmed value.
pub proof fn law_build_last_line_read(
    t: TreeModel,
    before: Seq<char>,
    line: Seq<char>,
    path: Seq<char>,
    key: Seq<char>,
)
    requires
        wf_model(build_model(t, before)),
        !line.contains('\n'),
        split_once_spec(line, '=') matches Some((k, v)) && trim_spec(k) == join_key(path, key),
        path_without_trailing_dot(path),
        !key.contains('.'),
    ensures
        split_once_spec(line, '=') matches Some((k, v))
            && lookup_model(build_model(t, before + seq!['\n'] + line), path, key) == Some(trim_spec(v))
            && (wf_model(t) ==> lookup_model(build_model(t, line), path, key) == Some(trim_spec(v))),
{
    law_build_reads_every_line(t, before, line);
    let u = build_model(t, before);
    lemma_first_index_of(line, '\n');
    assert(first_index_of(line, '\n') is None) by {
        if first_index_of(line, '\n') is Some {
            let i = first_index_of(line, '\n')->0;
            assert(line.contains('\n')) by { assert(line[i] == '\n'); }
        }
    }
    let (k, v) = split_once_spec(line, '=')->0;
    assert(build_model(u, line) == insert_model(u, join_key(path, key), trim_spec(v)));
    law_read_after_insert(u, path, key, trim_spec(v));
    if wf_model(t) {
        law_read_after_insert(t, path, key, trim_spec(v));
    }
}

/// Reading a parameter after writing it gives back the written value: after
/// storing `value` under `path.key`, looking up `key` at `path` finds `value`.
/// (The path must not end in an empty element, and the key holds no dot.)
pub proof fn law_read_after_insert(t: TreeModel, path: Seq<char>, key: Seq<char>, value: Seq<char>)
    requires
        wf_model(t),
        path_without_trailing_dot(path),
        !key.contains('.'),
    ensures
        lookup_model(insert_model(t, join_key(path, key), value), path, key) == Some(value),
    decreases path.len(),
{
    let jk = join_key(path, key);
    if path.len() == 0 {
        crate::strs::lemma_first_index_of(key, '.');
        if crate::strs::first_index_of(key, '.') is Some {
            let i = crate::strs::first_index_of(key, '.')->0;
            assert(key[i] == '.');
        }
        assert(split_once_spec(key, '.') is None);
    } else {
        lemma_split_joined(path, key);
        let (ele, rest) = head_and_rest(path);
        let rem = join_key(rest, key);
        let bs = t.branches;
        lemma_first_write_match(bs, ele, 0);
        let t2 = insert_model(t, jk, value);
        assert(head_and_rest(path) == (ele, rest));
        match first_write_match(bs, ele, 0) {
            Some(i) => {
                lemma_wf_branches_at(bs, i);
                law_read_after_insert(bs[i].1, rest, key, value);
                let bs2 = t2.branches;
                assert(bs2 == bs.update(i, (bs[i].0, insert_model(bs[i].1, rem, value))));
                assert(lookup_model(bs2[i].1, rest, key) == Some(value));
                if ele == star() {
                    assert(bs[i].0 == BranchKey::Any);
                    assert forall|l: int| 0 <= l < bs2.len() implies #[trigger] bs2[l].0 != BranchKey::Path(ele) by {
                        assert(bs2[l].0 == bs[l].0);
                    }
                    lemma_lookup_exact_absent(bs2, ele, rest, key);
                    assert forall|l: int| 0 <= l < i implies #[trigger] bs2[l].0 != BranchKey::Any by {
                        assert(bs2[l].0 == bs[l].0);
                    }
                    lemma_lookup_any_found(bs2, rest, key, i, value);
                } else {
                    assert(bs[i].0 == BranchKey::Path(ele));
                    assert forall|l: int| 0 <= l < i implies #[trigger] bs2[l].0 != BranchKey::Path(ele) by {
                        assert(bs2[l].0 == bs[l].0);
                        assert(!write_matches(bs[l].0, ele));
                    }
                    lemma_lookup_exact_found(bs2, ele, rest, key, i, value);
                }
            },
            None => {
                law_read_after_insert(empty_tree(), rest, key, value);
                let bs2 = t2.branches;
                let n = bs.len() as int;
                assert(bs2 == bs.push((key_for(ele), insert_model(empty_tree(), rem, value))));
                assert(lookup_model(bs2[n].1, rest, key) == Some(value));
                if ele == star() {
                    assert forall|l: int| 0 <= l < bs2.len() implies #[trigger] bs2[l].0 != BranchKey::Path(ele) by {
                        if l < n {
                            assert(bs2[l].0 == bs[l].0);
                        }
                    }
                    lemma_lookup_exact_absent(bs2, ele, rest, key);
                    assert forall|l: int| 0 <= l < n implies #[trigger] bs2[l].0 != BranchKey::Any by {
                        assert(bs2[l].0 == bs[l].0);
                        assert(!write_matches(bs[l].0, ele));
                    }
                    lemma_lookup_any_found(bs2, rest, key, n, value);
                } else {
                    assert forall|l: int| 0 <= l < n implies #[trigger] bs2[l].0 != BranchKey::Path(ele) by {
                        assert(bs2[l].0 == bs[l].0);
                        assert(!write_matches(bs[l].0, ele));
                    }
                    lemma_lookup_exact_found(bs2, ele, rest, key, n, value);
                }
            },
        }
    }
}

/// A branch of the stored tree.
#[derive(Debug)]
pub enum ParameterTreeBranch {
    Path(String, ParameterTree),
    Asterix(ParameterTree),
}

/// A node of the stored tree: branches in order and the parameters at this node.
#[derive(Debug)]
pub struct ParameterTree {
    branches: Vec<ParameterTreeBranch>,
    pars: StrKeyMap<String>,
}

/// The model of a stored tree.
pub closed spec fn tree_view(t: ParameterTree) -> TreeModel
    decreases t, 1int,
{
    TreeModel { branches: branches_view(t.branches@), pars: t.pars@.map_values(|v: String| v@) }
}

/// The models of stored branches.
pub closed spec fn branches_view(bs: Seq<ParameterTreeBranch>) -> Seq<(BranchKey, TreeModel)>
    decreases bs, 0int,
{
    if bs.len() == 0 {
        Seq::empty()
    } else {
        seq![branch_view(bs[0])] + branches_view(bs.drop_first())
    }
}

/// The model of a stored branch.
pub closed spec fn branch_view(b: ParameterTreeBranch) -> (BranchKey, TreeModel)
    decreases b, 2int,
{
    match b {
        ParameterTreeBranch::Path(p, t) => (BranchKey::Path(p@), tree_view(t)),
        ParameterTreeBranch::Asterix(t) => (BranchKey::Any, tree_view(t)),
    }
}

proof fn lemma_branches_view(bs: Seq<ParameterTreeBranch>)
    ensures
        branches_view(bs).len() == bs.len(),
        forall|i: int| 0 <= i < bs.len() ==> #[trigger] branches_view(bs)[i] == branch_view(bs[i]),
    decreases bs.len(),
{
    if bs.len() > 0 {
        lemma_branches_view(bs.drop_first());
        assert forall|i: int| 0 <= i < bs.len() implies #[trigger] branches_view(bs)[i] == branch_view(bs[i]) by {
            if i > 0 {
                assert(bs.drop_first()[i - 1] == bs[i]);
            }
        }
    }
}

proof fn lemma_branches_view_update(bs: Seq<ParameterTreeBranch>, i: int, b: ParameterTreeBranch)
    requires
        0 <= i < bs.len(),
    ensures
        branches_view(bs.update(i, b)) == branches_view(bs).update(i, branch_view(b)),
{
    lemma_branches_view(bs);
    lemma_branches_view(bs.update(i, b));
    assert(branches_view(bs.update(i, b)) =~= branches_view(bs).update(i, branch_view(b)));
}

proof fn lemma_branches_view_push(bs: Seq<ParameterTreeBranch>, b: ParameterTreeBranch)
    ensures
        branches_view(bs.push(b)) == branches_view(bs).push(branch_view(b)),
{
    lemma_branches_view(bs);
    lemma_branches_view(bs.push(b));
    assert(branches_view(bs.push(b)) =~= branches_view(bs).push(branch_view(b)));
}

impl ParameterTreeBranch {
    /// Whether a writer of element `key` takes this branch.
    pub fn matches(&self, key: &str) -> (r: bool)
        ensures
            r == write_matches(branch_view(*self).0, key@),
    {
        match self {
            ParameterTreeBranch::Path(path, _) => str_eq(path.as_str(), key),
            ParameterTreeBranch::Asterix(_) => is_star(key),
        }
    }

    /// The subtree behind the branch.
    pub fn tree_mut(&mut self) -> (r: &mut ParameterTree)
        ensures
            tree_view(*r) == branch_view(*old(self)).1,
            branch_view(*final(self)) == (branch_view(*old(self)).0, tree_view(*final(r))),
    {
        match self {
            ParameterTreeBranch::Asterix(tree) => tree,
            ParameterTreeBranch::Path(_, tree) => tree,
        }
    }
}

impl ParameterTree {
    pub closed spec fn view(&self) -> TreeModel {
        tree_view(*self)
    }

    /// A tree with no branches and no parameters.
    pub fn new() -> (r: Self)
        ensures
            r@ == empty_tree(),
    {
        let r = Self { branches: Vec::new(), pars: StrKeyMap::new() };
        proof {
            assert(r.branches@ =~= Seq::<ParameterTreeBranch>::empty());
            assert(r.pars@.map_values(|v: String| v@) =~= Map::<Seq<char>, Seq<char>>::empty());
        }
        r
    }

    /// The value of parameter `key` for the object at `path`.
    pub fn get_value<'a>(&'a self, path: &str, key: &str) -> (r: Option<&'a str>)
        ensures
            match r {
                Some(v) => lookup_model(self@, path@, key@) == Some(v@),
                None => lookup_model(self@, path@, key@) is None,
            },
        decreases self,
    {
        if path.is_empty() {
            return match self.pars.get(key) {
                Some(v) => Some(v.as_str()),
                None => None,
            };
        }
        let (ele, rem) = match split_once(path, '.') {
            Some(parts) => parts,
            None => {
                proof {
                    reveal_strlit("");
                }
                (path, "")
            },
        };
        assert(head_and_rest(path@) == (ele@, rem@));
        let ghost bv = branches_view(self.branches@);
        proof {
            lemma_branches_view(self.branches@);
        }
        let n = self.branches.len();
        assert(bv.subrange(0, n as int) =~= bv);
        assert(self@.branches == bv);
        let mut i: usize = 0;
        while i < n
            invariant
                n == self.branches@.len() == bv.len(),
                bv == branches_view(self.branches@),
                forall|j: int| 0 <= j < bv.len() ==> #[trigger] bv[j] == branch_view(self.branches@[j]),
                i <= n,
                path@.len() > 0,
                head_and_rest(path@) == (ele@, rem@),
                self@.branches == bv,
                lookup_exact(bv, ele@, rem@, key@) == lookup_exact(bv.subrange(i as int, n as int), ele@, rem@, key@),
            decreases n - i,
        {
            let ghost tail = bv.subrange(i as int, n as int);
            assert(tail.drop_first() =~= bv.subrange(i + 1, n as int));
            assert(tail[0] == bv[i as int]);
            match &self.branches[i] {
                ParameterTreeBranch::Path(p, sub) => {
                    if str_eq(p.as_str(), ele) {
                        let found = sub.get_value(rem, key);
                        if found.is_some() {
                            assert(lookup_exact(tail, ele@, rem@, key@) == Some(found.unwrap()@));
                            return found;
                        }
                    }
                },
                ParameterTreeBranch::Asterix(_) => {},
            }
            i = i + 1;
        }
        assert(bv.subrange(n as int, n as int).len() == 0);
        let mut i: usize = 0;
        assert(bv.subrange(0, n as int) =~= bv);
        while i < n
            invariant
                n == self.branches@.len() == bv.len(),
                bv == branches_view(self.branches@),
                forall|j: int| 0 <= j < bv.len() ==> #[trigger] bv[j] == branch_view(self.branches@[j]),
                i <= n,
                path@.len() > 0,
                head_and_rest(path@) == (ele@, rem@),
                self@.branches == bv,
                lookup_exact(bv, ele@, rem@, key@) is None,
                lookup_any(bv, rem@, key@) == lookup_any(bv.subrange(i as int, n as int), rem@, key@),
            decreases n - i,
        {
            let ghost tail = bv.subrange(i as int, n as int);
            assert(tail.drop_first() =~= bv.subrange(i + 1, n as int));
            assert(tail[0] == bv[i as int]);
            match &self.branches[i] {
                ParameterTreeBranch::Asterix(sub) => {
                    let found = sub.get_value(rem, key);
                    if found.is_some() {
                        assert(lookup_any(tail, rem@, key@) == Some(found.unwrap()@));
                        return found;
                    }
                },
                ParameterTreeBranch::Path(_, _) => {},
            }
            i = i + 1;
        }
        None
    }

    /// Adds every parameter visible under `key` to `map`.
    pub fn get(&self, key: &str, map: &mut StrKeyMap<String>)
        ensures
            final(map)@.map_values(|v: String| v@) == collect_model(
                self@,
                key@,
                old(map)@.map_values(|v: String| v@),
            ),
        decreases self,
    {
        let ghost acc0 = map@;
        if key.is_empty() {
            let n = self.pars.len();
            let ghost ents = self.pars.entries_spec();
            assert(ents.take(0) =~= Seq::<(Seq<char>, String)>::empty());
            assert(entries_map(ents.take(0)) =~= Map::<Seq<char>, String>::empty());
            assert(acc0.union_prefer_right(Map::<Seq<char>, String>::empty()) =~= acc0);
            let mut i: usize = 0;
            while i < n
                invariant
                    n == self.pars.spec_len() == ents.len(),
                    ents == self.pars.entries_spec(),
                    keys_distinct(ents),
                    i <= n,
                    map@ == acc0.union_prefer_right(entries_map(ents.take(i as int))),
                decreases n - i,
            {
                let k = self.pars.key_at(i);
                let v = self.pars.value_at(i);
                map.insert(String::from_str(k), v.clone());
                proof {
                    lemma_entries_map_prefix(ents, i as int);
                    assert(map@ =~= acc0.union_prefer_right(entries_map(ents.take(i + 1))));
                }
                i = i + 1;
            }
            proof {
                assert(ents.take(n as int) =~= ents);
            }
        }
        let ghost acc1 = map@.map_values(|v: String| v@);
        proof {
            let f = |v: String| v@;
            if key@.len() == 0 {
                assert(acc1 =~= acc0.map_values(f).union_prefer_right(self.pars@.map_values(f)));
            } else {
                assert(acc1 =~= acc0.map_values(f));
            }
        }
        let (ele, rem) = match split_once(key, '.') {
            Some(parts) => parts,
            None => {
                proof {
                    reveal_strlit("");
                }
                (key, "")
            },
        };
        assert(head_and_rest(key@) == (ele@, rem@));
        let ghost bv = branches_view(self.branches@);
        proof {
            lemma_branches_view(self.branches@);
        }
        let n = self.branches.len();
        assert(bv.subrange(0, n as int) =~= bv);
        assert(self@.branches == bv);
        let mut i: usize = 0;
        while i < n
            invariant
                n == self.branches@.len() == bv.len(),
                bv == branches_view(self.branches@),
                forall|j: int| 0 <= j < bv.len() ==> #[trigger] bv[j] == branch_view(self.branches@[j]),
                i <= n,
                collect_branches(bv, ele@, rem@, acc1) == collect_branches(
                    bv.subrange(i as int, n as int),
                    ele@,
                    rem@,
                    map@.map_values(|v: String| v@),
                ),
            decreases n - i,
        {
            let ghost tail = bv.subrange(i as int, n as int);
            assert(tail.drop_first() =~= bv.subrange(i + 1, n as int));
            assert(tail[0] == bv[i as int]);
            match &self.branches[i] {
                ParameterTreeBranch::Path(p, sub) => {
                    if str_eq(p.as_str(), ele) {
                        sub.get(rem, map);
                    }
                },
                ParameterTreeBranch::Asterix(sub) => {
                    sub.get(rem, map);
                },
            }
            i = i + 1;
        }
        proof {
            assert(bv.subrange(n as int, n as int).len() == 0);
        }
    }

    /// Stores `value` under the dotted `key`, creating branches as needed.
    pub fn insert(&mut self, key: &str, value: &str)
        ensures
            final(self)@ == insert_model(old(self)@, key@, value@),
        decreases key@.len(),
    {
        proof {
            lemma_split_once_shorter(key@, '.');
        }
        match split_once(key, '.') {
            Some((ele, rem)) => {
                let ghost bs = self.branches@;
                proof {
                    lemma_branches_view(bs);
                    lemma_first_write_match(branches_view(bs), ele@, 0);
                }
                let n = self.branches.len();
                let mut i: usize = 0;
                while i < n
                    invariant
                        n == self.branches@.len(),
                        bs == self.branches@,
                        branches_view(bs).len() == n,
                        forall|j: int| 0 <= j < n ==> #[trigger] branches_view(bs)[j] == branch_view(bs[j]),
                        i <= n,
                        forall|j: int| 0 <= j < i ==> !write_matches(#[trigger] branches_view(bs)[j].0, ele@),
                    ensures
                        i <= n,
                        forall|j: int| 0 <= j < i ==> !write_matches(#[trigger] branches_view(bs)[j].0, ele@),
                        i < n ==> write_matches(branches_view(bs)[i as int].0, ele@),
                    decreases n - i,
                {
                    if self.branches[i].matches(ele) {
                        break;
                    }
                    i = i + 1;
                }
                proof {
                    let fm = first_write_match(branches_view(bs), ele@, 0);
                    if i < n {
                        assert(fm == Some(i as int));
                    } else {
                        assert(fm is None);
                    }
                }
                if i < n {
                    let branch = &mut self.branches[i];
                    let sub = branch.tree_mut();
                    sub.insert(rem, value);
                    proof {
                        lemma_branches_view_update(bs, i as int, self.branches@[i as int]);
                        assert(self.branches@ == bs.update(i as int, self.branches@[i as int]));
                    }
                } else {
                    let mut node = ParameterTree::new();
                    node.insert(rem, value);
                    let branch = if is_star(ele) {
                        ParameterTreeBranch::Asterix(node)
                    } else {
                        ParameterTreeBranch::Path(String::from_str(ele), node)
                    };
                    let ghost b = branch;
                    self.branches.push(branch);
                    proof {
                        lemma_branches_view_push(bs, b);
                    }
                }
            },
            None => {
                self.pars.insert(String::from_str(key), String::from_str(value));
                proof {
                    assert(self@.pars =~= old(self)@.pars.insert(key@, value@));
                    assert(self@.branches == old(self)@.branches);
                }
            },
        }
    }
}

///
/// The collection of all loaded parameters for modules,
/// inside a network runtime.
///
#[derive(Debug)]
pub struct Parameters {
    tree: ParameterTree,
    pub(crate) updates: Vec<String>,
}

impl Parameters {
    #[verifier::type_invariant]
    closed spec fn inv(&self) -> bool {
        wf_model(self.tree@)
    }

    /// The parameter tree.
    pub closed spec fn model(&self) -> TreeModel {
        self.tree@
    }

    /// The paths whose parameters were set through handles, in order.
    pub closed spec fn update_log(&self) -> Seq<Seq<char>> {
        self.updates@.map_values(|s: String| s@)
    }

    ///
    /// Creates a new empty parameter tree.
    ///
    pub fn new() -> (r: Self)
        ensures
            r.model() == empty_tree(),
            r.update_log() == Seq::<Seq<char>>::empty(),
    {
        let r = Self { tree: ParameterTree::new(), updates: Vec::new() };
        proof {
            assert(r.update_log() =~= Seq::<Seq<char>>::empty());
        }
        r
    }

    ///
    /// Populates the parameter tree using the given raw text
    /// as parameter definitions.
    ///
    pub fn build(&mut self, raw_text: &str)
        ensures
            final(self).model() == build_model(old(self).model(), raw_text@),
            final(self).update_log() == old(self).update_log(),
        decreases raw_text@.len(),
    {
        proof {
            lemma_split_once_shorter(raw_text@, '\n');
        }
        match split_once(raw_text, '\n') {
            Some((line, rest)) => {
                self.build_line(line);
                self.build(rest);
            },
            None => {
                self.build_line(raw_text);
            },
        }
    }

    fn build_line(&mut self, line: &str)
        ensures
            final(self).model() == apply_line(old(self).model(), line@),
            final(self).update_log() == old(self).update_log(),
    {
        if let Some((key, value)) = split_once(line, '=') {
            self.insert(trim(key), trim(value));
        }
    }

    pub(crate) fn insert(&mut self, key: &str, value: &str)
        ensures
            final(self).model() == insert_model(old(self).model(), key@, value@),
            final(self).update_log() == old(self).update_log(),
    {
        proof {
            use_type_invariant(&*self);
            lemma_insert_keeps_wf(self.tree@, key@, value@);
        }
        let mut tree = ParameterTree::new();
        std::mem::swap(&mut tree, &mut self.tree);
        tree.insert(key, value);
        self.tree = tree;
    }

    pub(crate) fn get_def_table(&self, key: &str) -> (r: StrKeyMap<String>)
        ensures
            r@.map_values(|v: String| v@) == collect_model(self.model(), key@, Map::empty()),
    {
        let mut map = StrKeyMap::new();
        proof {
            assert(map@.map_values(|v: String| v@) =~= Map::<Seq<char>, Seq<char>>::empty());
        }
        self.tree.get(key, &mut map);
        map
    }

    /// The value of parameter `key` for the object at `path`.
    pub fn get_value<'a>(&'a self, path: &str, key: &str) -> (r: Option<&'a str>)
        ensures
            match r {
                Some(v) => lookup_model(self.model(), path@, key@) == Some(v@),
                None => lookup_model(self.model(), path@, key@) is None,
            },
    {
        self.tree.get_value(path, key)
    }

    ///
    /// Creates a read-and-write handle to a specific key on a module.
    ///
    /// This handle can point to a nonexiting value if its only used for writing.
    ///
    pub fn get_handle(&self, path: &str, key: &str) -> (r: ParHandle<Optional>)
        ensures
            r.path_text() == path@,
            r.key_text() == key@,
            r.value_text() is None,
    {
        ParHandle {
            path: String::from_str(path),
            key: String::from_str(key),
            value: None,
            _phantom: PhantomData,
        }
    }
}

impl Default for Parameters {
    fn default() -> (r: Self)
        ensures
            r.model() == empty_tree(),
    {
        Self::new()
    }
}

/// The states a [`ParHandle`] can be in.
pub trait ParHandleState {}

///
/// The state of a [`ParHandle`] where its not decided
/// whether data is contained or not. Useful for writing data
/// to not yet initalized parameters.
///
#[derive(Debug)]
pub struct Optional;

impl ParHandleState for Optional {}

/// The state of a [`ParHandle`] where the contents are guaranteed
/// to be there, thus allowing derefs on the handle.
///
#[derive(Debug)]
pub struct Unwraped;

impl ParHandleState for Unwraped {}

///
/// A handle for a requested parameter, local to a
/// module path and parameter key.
///
#[derive(Debug)]
pub struct ParHandle<State: ParHandleState> {
    path: String,
    key: String,
    value: Option<String>,
    _phantom: PhantomData<State>,
}

impl<State: ParHandleState> ParHandle<State> {
    /// The module path the handle belongs to.
    pub closed spec fn path_text(&self) -> Seq<char> {
        self.path@
    }

    /// The parameter key of the handle.
    pub closed spec fn key_text(&self) -> Seq<char> {
        self.key@
    }

    /// The value the handle holds, if it was read.
    pub closed spec fn value_text(&self) -> Option<Seq<char>> {
        match self.value {
            Some(v) => Some(v@),
            None => None,
        }
    }

    ///
    /// Unwraps the handle allowing [Deref] on the contained
    /// value consuming self.
    ///
    pub fn unwrap(self, pars: &Parameters) -> (r: ParHandle<Unwraped>)
        requires
            lookup_model(pars.model(), self.path_text(), self.key_text()) is Some,
        ensures
            r.path_text() == self.path_text(),
            r.key_text() == self.key_text(),
            r.value_text() == lookup_model(pars.model(), self.path_text(), self.key_text()),
    {
        let val = pars.get_value(self.path.as_str(), self.key.as_str()).unwrap();
        ParHandle {
            value: Some(String::from_str(val)),
            path: self.path,
            key: self.key,
            _phantom: PhantomData,
        }
    }

    ///
    /// Maps the internal value if exisitent to a given output.
    ///
    pub fn map<F, T>(self, pars: &Parameters, f: F) -> (r: Option<T>)
        where
            F: FnOnce(ParHandle<Unwraped>) -> T,
        requires
            self.value_text() is Some ==> lookup_model(pars.model(), self.path_text(), self.key_text()) is Some,
            forall|h: ParHandle<Unwraped>|
                lookup_model(pars.model(), self.path_text(), self.key_text()) is Some
                    && h.path_text() == self.path_text() && h.key_text() == self.key_text()
                    && h.value_text() == lookup_model(pars.model(), self.path_text(), self.key_text())
                    ==> #[trigger] f.requires((h,)),
        ensures
            (r is Some) <==> (self.value_text() is Some
                || lookup_model(pars.model(), self.path_text(), self.key_text()) is Some),
            r is Some ==> exists|h: ParHandle<Unwraped>|
                h.value_text() == lookup_model(pars.model(), self.path_text(), self.key_text())
                && h.path_text() == self.path_text() && h.key_text() == self.key_text()
                && #[trigger] f.ensures((h,), r->0),
    {
        if self.is_some(pars) {
            let h = self.unwrap(pars);
            let ghost hg = h;
            let t = f(h);
            assert(f.ensures((hg,), t));
            assert(hg.value_text() == lookup_model(pars.model(), self.path_text(), self.key_text()));
            assert(hg.path_text() == self.path_text() && hg.key_text() == self.key_text());
            assert(exists|h: ParHandle<Unwraped>|
                h.value_text() == lookup_model(pars.model(), self.path_text(), self.key_text())
                && h.path_text() == self.path_text() && h.key_text() == self.key_text()
                && #[trigger] f.ensures((h,), t));
            let r = Some(t);
            assert(f.ensures((hg,), r->0));
            r
        } else {
            None
        }
    }

    ///
    /// Indicates whether the handle contains a value.
    ///
    pub fn is_some(&self, pars: &Parameters) -> (r: bool)
        ensures
            r == (self.value_text() is Some
                || lookup_model(pars.model(), self.path_text(), self.key_text()) is Some),
    {
        self.value.is_some() || pars.get_value(self.path.as_str(), self.key.as_str()).is_some()
    }

    ///
    /// Indicates whether the handle contains a value.
    ///
    pub fn is_none(&self, pars: &Parameters) -> (r: bool)
        ensures
            r == !(self.value_text() is Some
                || lookup_model(pars.model(), self.path_text(), self.key_text()) is Some),
    {
        !self.is_some(pars)
    }

    ///
    /// Returns the contained value optionally, thereby losing the
    /// ability to set the par.
    ///
    pub fn as_optional(self, pars: &Parameters) -> (r: Option<String>)
        ensures
            match self.value_text() {
                Some(v) => r matches Some(s) && s@ == v,
                None => match lookup_model(pars.model(), self.path_text(), self.key_text()) {
                    Some(v) => r matches Some(s) && s@ == v,
                    None => r is None,
                },
            },
    {
        match self.value {
            Some(value) => Some(value),
            None => match pars.get_value(self.path.as_str(), self.key.as_str()) {
                Some(v) => Some(String::from_str(v)),
                None => None,
            },
        }
    }

    ///
    /// Sets the parameter to the given value (given as its string form).
    ///
    pub fn set(self, pars: &mut Parameters, value: &str)
        ensures
            final(pars).model() == insert_model(
                old(pars).model(),
                self.path_text() + seq!['.'] + self.key_text(),
                value@,
            ),
            final(pars).update_log() == old(pars).update_log().push(self.path_text()),
    {
        let mut full = self.path.clone();
        full.append(".");
        full.append(self.key.as_str());
        proof {
            reveal_strlit(".");
            assert(full@ =~= self.path@ + seq!['.'] + self.key@);
        }
        pars.insert(full.as_str(), value);
        proof {
            use_type_invariant(&*pars);
        }
        let mut updates = Vec::new();
        std::mem::swap(&mut updates, &mut pars.updates);
        updates.push(self.path);
        pars.updates = updates;
        proof {
            assert(pars.update_log() =~= old(pars).update_log().push(self.path_text()));
        }
    }
}

impl ParHandle<Unwraped> {
    ///
    /// Uses a custom string parser to parse a string, timming
    /// quotation marks in the process.
    ///
    pub fn parse_string(&self) -> (r: String)
        requires
            self.value_text() is Some,
        ensures
            r@ == strip_quotes(self.value_text()->0),
    {
        let parsed = self.value.as_ref().unwrap();
        let n = char_len(parsed.as_str());
        if n >= 2 && parsed.as_str().get_char(0) == '"' && parsed.as_str().get_char(n - 1) == '"' {
            substring(parsed.as_str(), 1, n - 1)
        } else {
            parsed.clone()
        }
    }
}

} // verus!
