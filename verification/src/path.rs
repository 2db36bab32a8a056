//! Object paths: dot-separated module names, optionally ending in a gate.
use vstd::prelude::*;
use vstd::string::*;
use crate::strs::{last_index_of, lemma_last_index_of, lemma_last_index_of_unique, char_len, rfind_char, contains_char};

verus! {

/// The last dot-separated component of `s`.
pub open spec fn name_of(s: Seq<char>) -> Seq<char> {
    match last_index_of(s, '.') {
        Some(i) => s.subrange(i + 1, s.len() as int),
        None => s,
    }
}

/// Everything of `s` before its last dot, or nothing if there is no dot.
pub open spec fn parent_text_of(s: Seq<char>) -> Seq<char> {
    match last_index_of(s, '.') {
        Some(i) => s.subrange(0, i),
        None => Seq::empty(),
    }
}

/// `s` with the component `m` appended, separated by a dot where both are non-empty.
pub open spec fn appended_text(s: Seq<char>, m: Seq<char>) -> Seq<char> {
    if m.len() == 0 {
        s
    } else if s.len() == 0 {
        m
    } else {
        s + seq!['.'] + m
    }
}

/// Appending a non-empty component without dots to a path, then taking the
/// name, gives back that component.
pub proof fn law_appended_name(path: ObjectPath, module: Seq<char>)
    requires
        module.len() > 0,
        !module.contains('.'),
    ensures
        name_of(appended_text(path.text(), module)) == module,
{
    let t = appended_text(path.text(), module);
    lemma_last_index_of(module, '.');
    if path.text().len() == 0 {
        assert(t == module);
    } else {
        let k = path.text().len() as int;
        assert forall|j: int| k < j < t.len() implies t[j] != '.' by {
            assert(t[j] == module[j - k - 1]);
        }
        lemma_last_index_of_unique(t, '.', k);
        assert(t.subrange(k + 1, t.len() as int) =~= module);
    }
}

/// Appending a non-empty component without dots to a path, then taking the
/// parent, gives back the path.
pub proof fn law_appended_parent(path: ObjectPath, module: Seq<char>)
    requires
        module.len() > 0,
        !module.contains('.'),
    ensures
        parent_text_of(appended_text(path.text(), module)) == path.text(),
{
    let t = appended_text(path.text(), module);
    lemma_last_index_of(module, '.');
    if path.text().len() == 0 {
        assert(t == module);
        assert(parent_text_of(t) =~= path.text());
    } else {
        let k = path.text().len() as int;
        assert forall|j: int| k < j < t.len() implies t[j] != '.' by {
            assert(t[j] == module[j - k - 1]);
        }
        lemma_last_index_of_unique(t, '.', k);
        assert(t.subrange(0, k) =~= path.text());
    }
}

/// A path that holds a dot is its parent and its name joined by a dot.
pub proof fn law_parent_and_name_rebuild_path(path: ObjectPath)
    requires
        path.text().contains('.'),
    ensures
        parent_text_of(path.text()) + seq!['.'] + name_of(path.text()) == path.text(),
{
    let s = path.text();
    lemma_last_index_of(s, '.');
    let i = last_index_of(s, '.')->0;
    assert(s.subrange(0, i) + seq!['.'] + s.subrange(i + 1, s.len() as int) =~= s);
}

/// A unqiue identifier for a object, indicating its parental inheritance.
#[derive(Debug)]
pub struct ObjectPath {
    data: String,
    is_gate: bool,
}

impl ObjectPath {
    /// The full path as a sequence of characters.
    pub closed spec fn text(&self) -> Seq<char> {
        self.data@
    }

    /// Whether the path points to a gate rather than a module.
    pub closed spec fn points_to_gate(&self) -> bool {
        self.is_gate
    }

    /// Indicates whether the path points to the simulation root.
    pub fn is_root(&self) -> (r: bool)
        ensures
            r == (self.text().len() == 0),
    {
        self.data.as_str().is_empty()
    }

    /// Indicates whether the path points to a module.
    pub fn is_module(&self) -> (r: bool)
        ensures
            r == !self.points_to_gate(),
    {
        !self.is_gate
    }

    /// Returns the last path component, the name of the current module.
    pub fn name(&self) -> (r: &str)
        ensures
            r@ == name_of(self.text()),
    {
        let s = self.data.as_str();
        let n = char_len(s);
        let last = match rfind_char(s, '.') {
            Some(i) => i + 1,
            None => 0,
        };
        s.substring_char(last, n)
    }

    /// Returns the entrie path as a &str.
    pub fn as_str(&self) -> (r: &str)
        ensures
            r@ == self.text(),
    {
        self.data.as_str()
    }

    /// Returns the entrie path as a &str for declaring a logger scope
    pub fn as_logger_scope(&self) -> (r: &str)
        ensures
            r@ == (if self.text().len() == 0 { "@root"@ } else { self.text() }),
    {
        if self.is_root() {
            "@root"
        } else {
            self.as_str()
        }
    }

    /// Returns the part of the path before the last component.
    pub fn as_parent_str(&self) -> (r: &str)
        ensures
            r@ == parent_text_of(self.text()),
    {
        let s = self.data.as_str();
        let last = match rfind_char(s, '.') {
            Some(i) => i,
            None => 0,
        };
        s.substring_char(0, last)
    }

    /// Constructs the path to the parent element, if there is any.
    pub fn parent(&self) -> (r: Option<ObjectPath>)
        ensures
            parent_text_of(self.text()).len() == 0 ==> r is None,
            parent_text_of(self.text()).len() != 0 ==> (r matches Some(p) && p.text()
                == parent_text_of(self.text()) && !p.points_to_gate()),
    {
        let path = self.as_parent_str();
        if path.is_empty() {
            None
        } else {
            Some(ObjectPath { data: String::from_str(path), is_gate: false })
        }
    }

    /// Returns a parent that is not root.
    pub fn nonzero_parent(&self) -> (r: Option<ObjectPath>)
        ensures
            parent_text_of(self.text()).len() == 0 ==> r is None,
            parent_text_of(self.text()).len() != 0 ==> (r matches Some(p) && p.text()
                == parent_text_of(self.text()) && !p.points_to_gate()),
    {
        let parent = self.parent()?;
        if parent.is_root() {
            None
        } else {
            Some(parent)
        }
    }

    /// Returns a new instance with another module appended to the path.
    pub fn appended(&self, module: &str) -> (r: Self)
        requires
            !self.points_to_gate(),
        ensures
            r.text() == appended_text(self.text(), module@),
            !r.points_to_gate(),
    {
        let mut data = self.data.clone();
        if !module.is_empty() {
            if !data.as_str().is_empty() {
                data.append(".");
                proof {
                    reveal_strlit(".");
                }
            }
            data.append(module);
        }
        proof {
            if module@.len() != 0 && self.data@.len() != 0 {
                assert(data@ =~= self.data@ + seq!['.'] + module@);
            }
        }
        Self { data, is_gate: false }
    }

    /// A path to a gate of this module.
    pub fn appended_gate(&self, gate: &str) -> (r: Self)
        requires
            !self.points_to_gate(),
        ensures
            r.text() == appended_text(self.text(), gate@),
            r.points_to_gate(),
    {
        let mut appended = self.appended(gate);
        appended.is_gate = true;
        appended
    }

    /// Parses a path from a string; a `#` in the last component marks a gate.
    pub fn from_str_ref(s: &str) -> (r: Self)
        ensures
            r.text() == s@,
            r.points_to_gate() == name_of(s@).contains('#'),
    {
        let mut this = Self { data: String::from_str(s), is_gate: false };
        if contains_char(this.name(), '#') {
            this.is_gate = true;
        }
        this
    }

    /// The root path, which is empty.
    pub fn root() -> (r: Self)
        ensures
            r.text() == Seq::<char>::empty(),
            !r.points_to_gate(),
    {
        Self { data: String::new(), is_gate: false }
    }

    /// Whether both paths hold the same text and point to the same kind of object.
    pub fn equals(&self, other: &Self) -> (r: bool)
        ensures
            r == (self.text() == other.text() && self.points_to_gate() == other.points_to_gate()),
    {
        self.data == other.data && self.is_gate == other.is_gate
    }
}

impl PartialEq for ObjectPath {
    fn eq(&self, other: &Self) -> (r: bool) {
        self.equals(other)
    }
}

impl vstd::std_specs::cmp::PartialEqSpecImpl for ObjectPath {
    open spec fn obeys_eq_spec() -> bool {
        true
    }

    open spec fn eq_spec(&self, other: &Self) -> bool {
        self.text() == other.text() && self.points_to_gate() == other.points_to_gate()
    }
}

impl Eq for ObjectPath {}

impl Clone for ObjectPath {
    fn clone(&self) -> (r: Self)
        ensures
            r.text() == self.text(),
            r.points_to_gate() == self.points_to_gate(),
    {
        Self { data: self.data.clone(), is_gate: self.is_gate }
    }
}

impl Default for ObjectPath {
    fn default() -> (r: Self)
        ensures
            r.text() == Seq::<char>::empty(),
            !r.points_to_gate(),
    {
        Self::root()
    }
}

impl<'a> From<&'a str> for ObjectPath {
    fn from(s: &'a str) -> (r: Self)
        ensures
            r.text() == s@,
            r.points_to_gate() == name_of(s@).contains('#'),
    {
        Self::from_str_ref(s)
    }
}

impl<'a> vstd::std_specs::convert::FromSpecImpl<&'a str> for ObjectPath {
    open spec fn obeys_from_spec() -> bool {
        false
    }

    open spec fn from_spec(s: &'a str) -> Self {
        arbitrary()
    }
}

impl<'a> vstd::std_specs::convert::FromSpecImpl<&'a String> for ObjectPath {
    open spec fn obeys_from_spec() -> bool {
        false
    }

    open spec fn from_spec(s: &'a String) -> Self {
        arbitrary()
    }
}

impl vstd::std_specs::convert::FromSpecImpl<String> for ObjectPath {
    open spec fn obeys_from_spec() -> bool {
        false
    }

    open spec fn from_spec(s: String) -> Self {
        arbitrary()
    }
}

impl From<String> for ObjectPath {
    fn from(s: String) -> (r: Self)
        ensures
            r.text() == s@,
            r.points_to_gate() == name_of(s@).contains('#'),
    {
        Self::from_str_ref(s.as_str())
    }
}

impl<'a> From<&'a String> for ObjectPath {
    fn from(s: &'a String) -> (r: Self)
        ensures
            r.text() == s@,
            r.points_to_gate() == name_of(s@).contains('#'),
    {
        Self::from_str_ref(s.as_str())
    }
}

} // verus!
