//! Object paths of the form `subsys/subsys.module.module#channel`.
use vstd::prelude::*;
use vstd::string::*;
use crate::strs::{
    last_index_of, first_index_of, lemma_last_index_of, lemma_first_index_of,
    lemma_last_index_of_unique, lemma_first_index_of_unique, char_len, rfind_char, find_char, contains_char, substring,
};

verus! {

/// The separators between path elements.
pub open spec fn is_separator(c: char) -> bool {
    c == '.' || c == '/'
}

/// Every element between separators is non-empty: no separator at the start,
/// at the end, or right after another separator.
pub open spec fn elements_non_empty(s: Seq<char>) -> bool {
    &&& s.len() > 0
    &&& !is_separator(s.last())
    &&& forall|i: int| 0 <= i < s.len() && is_separator(#[trigger] s[i]) ==> i > 0 && !is_separator(s[i - 1])
}

/// One past the last occurrence of `c`, or 0.
pub open spec fn after_last(s: Seq<char>, c: char) -> nat {
    match last_index_of(s, c) {
        Some(i) => (i + 1) as nat,
        None => 0,
    }
}

/// The offsets of a path lie within its text, and the last element does not
/// start after the channel part.
pub open spec fn offsets_bounded(m: PathModel) -> bool {
    &&& m.1 <= m.0.len()
    &&& m.2 <= m.0.len()
    &&& m.3 <= m.0.len()
    &&& m.3 <= m.2
}

/// A path as text and three character offsets: where the module part starts,
/// where a channel name starts, and where the last element starts.
pub type PathModel = (Seq<char>, nat, nat, nat);

/// An error that has occured upon parsing a String to a `ObjectPath`.
#[derive(Debug, Clone, Copy, PartialEq, Eq, Structural, Hash)]
pub enum ObjectPathParseError {
    /// The provided string is empty.
    EmptyPath,
    /// The provided string contains a path element width width 0.
    EmptyPathElement,
    /// The provided string does not contain a path in the form ([subsys]/+.)?[module].+
    UnorderedPath,
}

/// What parsing `s` gives: an error, or the path's model.
pub open spec fn parse_spec(s: Seq<char>) -> Result<PathModel, ObjectPathParseError> {
    if s.len() == 0 {
        Err(ObjectPathParseError::EmptyPath)
    } else if first_index_of(s, '.') is Some && last_index_of(s, '/') is Some
        && first_index_of(s, '.')->0 < last_index_of(s, '/')->0 {
        Err(ObjectPathParseError::UnorderedPath)
    } else if !elements_non_empty(s) {
        Err(ObjectPathParseError::EmptyPathElement)
    } else {
        let module = match first_index_of(s, '.') {
            Some(i) => (i + 1) as nat,
            None => s.len(),
        };
        let last = if last_index_of(s, '.') is Some {
            after_last(s, '.')
        } else {
            after_last(s, '/')
        };
        match last_index_of(s, '#') {
            Some(h) => Ok((s, module, (h + 1) as nat, (h + 1) as nat)),
            None => Ok((s, module, s.len(), last)),
        }
    }
}

/// The element of the path is a channel.
pub open spec fn model_is_channel(m: PathModel) -> bool {
    m.3 == m.2
}

/// The element of the path is a subsystem.
pub open spec fn model_is_subsystem(m: PathModel) -> bool {
    m.3 < m.1 && m.3 < m.2
}

/// The element of the path is a module.
pub open spec fn model_is_module(m: PathModel) -> bool {
    !model_is_subsystem(m) && !model_is_channel(m)
}

/// The model of the parent: the path without its last element and the separator
/// before it, with offsets recomputed for the kind of object the parent is.
pub open spec fn parent_of_model(m: PathModel) -> Option<PathModel> {
    if m.3 == 0 {
        None
    } else {
        let data = m.0.subrange(0, m.3 - 1);
        if model_is_subsystem(m) {
            Some((data, data.len(), data.len(), after_last(data, '/')))
        } else {
            let delim = if model_is_module(m) {
                if m.1 == m.3 { '/' } else { '.' }
            } else {
                if m.1 >= m.3 { '/' } else { '.' }
            };
            let module = if delim == '/' { data.len() } else { m.1 };
            Some((data, module, data.len(), after_last(data, delim)))
        }
    }
}

/// A top-level subsystem named `name`.
pub open spec fn root_subsystem_model(name: Seq<char>) -> PathModel {
    (name, name.len(), name.len(), 0)
}

/// A top-level module named `name`.
pub open spec fn root_module_model(name: Seq<char>) -> PathModel {
    (name, 0, name.len(), 0)
}

/// The channel `name` under the path `m`.
pub open spec fn channel_child(m: PathModel, name: Seq<char>) -> PathModel {
    let data = m.0 + seq!['#'] + name;
    (data, m.1, m.0.len() + 1, m.0.len() + 1)
}

/// The subsystem `name` under the subsystem `m`.
pub open spec fn subsystem_child(m: PathModel, name: Seq<char>) -> PathModel {
    let data = m.0 + seq!['/'] + name;
    (data, data.len(), data.len(), m.0.len() + 1)
}

/// The module `name` under the path `m`.
pub open spec fn module_child(m: PathModel, name: Seq<char>) -> PathModel {
    let data = m.0 + seq!['.'] + name;
    let last = m.0.len() + 1;
    (data, if model_is_module(m) { m.1 } else { last }, data.len(), last)
}

/// A name that can stand as one path element: no separators in it.
pub open spec fn plain_name(name: Seq<char>) -> bool {
    !name.contains('/') && !name.contains('.')
}

/// A path as the constructors build it: not a channel, offsets in range, and
/// the last element starting right after the last separator of its kind.
pub open spec fn canonical(m: PathModel) -> bool {
    &&& m.1 <= m.0.len()
    &&& m.2 == m.0.len()
    &&& m.3 <= m.0.len()
    &&& !model_is_channel(m)
    &&& model_is_subsystem(m) ==> m.1 == m.0.len() && m.3 == after_last(m.0, '/')
    &&& model_is_module(m) ==> m.3 == after_last(m.0, '.')
}

///
/// A unqiue identifier for a object, indicating its parental inheritance.
///
#[derive(Debug)]
pub struct ObjectPath {
    data: String,
    module_offset: usize,
    channel_offset: usize,
    last_element_offset: usize,
}

impl ObjectPath {
    /// The text and offsets of the path.
    pub closed spec fn model(&self) -> PathModel {
        (self.data@, self.module_offset as nat, self.channel_offset as nat, self.last_element_offset as nat)
    }

    /// Offsets lie within the text.
    #[verifier::type_invariant]
    closed spec fn bounded(&self) -> bool {
        &&& self.module_offset <= self.data@.len()
        &&& self.channel_offset <= self.data@.len()
        &&& self.last_element_offset <= self.data@.len()
        &&& self.last_element_offset <= self.channel_offset
    }

    /// The full path.
    pub open spec fn text(&self) -> Seq<char> {
        self.model().0
    }

    /// Where the last element of the path starts.
    pub open spec fn last_off(&self) -> nat {
        self.model().3
    }

    /// Whether the path names a channel.
    pub open spec fn spec_is_channel(&self) -> bool {
        model_is_channel(self.model())
    }

    /// Whether the path names a subsystem.
    pub open spec fn spec_is_subsystem(&self) -> bool {
        model_is_subsystem(self.model())
    }

    /// Whether the path names a module.
    pub open spec fn spec_is_module(&self) -> bool {
        model_is_module(self.model())
    }

    ///
    /// Indicates whether the pointee is a channel.
    ///
    pub fn is_channel(&self) -> (r: bool)
        ensures
            r == self.spec_is_channel(),
    {
        self.last_element_offset == self.channel_offset
    }

    ///
    /// Indicates whether the pointee to object is
    /// a subsystem.
    ///
    pub fn is_subsystem(&self) -> (r: bool)
        ensures
            r == self.spec_is_subsystem(),
    {
        self.last_element_offset < self.module_offset
            && self.last_element_offset < self.channel_offset
    }

    ///
    /// Indicates whether the pointee to object is
    /// a module.
    ///
    pub fn is_module(&self) -> (r: bool)
        ensures
            r == self.spec_is_module(),
    {
        !self.is_subsystem() && !self.is_channel()
    }

    ///
    /// Returns the local name of the pointee,
    /// aka. the last path element.
    ///
    pub fn name(&self) -> (r: &str)
        ensures
            r@ == self.text().subrange(self.last_off() as int, self.text().len() as int),
    {
        proof {
            use_type_invariant(self);
        }
        let s = self.data.as_str();
        let n = char_len(s);
        s.substring_char(self.last_element_offset, n)
    }

    ///
    /// Returns the full path to the pointee.
    ///
    pub fn path(&self) -> (r: &str)
        ensures
            r@ == self.text(),
    {
        self.data.as_str()
    }

    ///
    /// Returns the part of the path that does not
    /// include the pointees name.
    ///
    pub fn parent_path(&self) -> (r: &str)
        ensures
            self.last_off() == 0 ==> r@ == Seq::<char>::empty(),
            self.last_off() != 0 ==> r@ == self.text().subrange(0, self.last_off() - 1),
    {
        proof {
            use_type_invariant(self);
        }
        let s = self.data.as_str();
        if self.last_element_offset == 0 {
            s.substring_char(0, 0)
        } else {
            s.substring_char(0, self.last_element_offset - 1)
        }
    }
}

impl ObjectPath {
    ///
    /// Returns a pointer to that parent entity
    /// or `None` if self is a root entity.
    ///
    pub fn parent(&self) -> (r: Option<ObjectPath>)
        ensures
            match r {
                Some(p) => parent_of_model(self.model()) == Some(p.model()) && offsets_bounded(p.model()),
                None => parent_of_model(self.model()) is None,
            },
    {
        proof {
            use_type_invariant(self);
        }
        if self.last_element_offset == 0 {
            return None;
        }
        let data = substring(self.data.as_str(), 0, self.last_element_offset - 1);
        let len = char_len(data.as_str());
        if self.is_subsystem() {
            let last_element_offset = match rfind_char(data.as_str(), '/') {
                Some(i) => i + 1,
                None => 0,
            };
            Some(ObjectPath { channel_offset: len, module_offset: len, last_element_offset, data })
        } else {
            let next_delim = if self.is_module() {
                if self.module_offset == self.last_element_offset { '/' } else { '.' }
            } else {
                if self.module_offset >= self.last_element_offset { '/' } else { '.' }
            };
            let last_element_offset = match rfind_char(data.as_str(), next_delim) {
                Some(i) => i + 1,
                None => 0,
            };
            let module_offset = if next_delim == '/' { len } else { self.module_offset };
            Some(ObjectPath { module_offset, last_element_offset, channel_offset: len, data })
        }
    }
}

impl ObjectPath {
    /// Checks that every element between separators of `s` is non-empty.
    fn check_elements(s: &str) -> (r: bool)
        ensures
            r == elements_non_empty(s@),
    {
        let n = char_len(s);
        let mut at_start = true;
        let mut i: usize = 0;
        while i < n
            invariant
                n == s@.len(),
                i <= n,
                at_start == (i == 0 || is_separator(s@[i - 1])),
                forall|j: int| 0 <= j < i && is_separator(#[trigger] s@[j]) ==> j > 0 && !is_separator(s@[j - 1]),
            decreases n - i,
        {
            let c = s.get_char(i);
            if c == '.' || c == '/' {
                if at_start {
                    assert(!elements_non_empty(s@) ) by {
                        assert(is_separator(s@[i as int]));
                    }
                    return false;
                }
                at_start = true;
            } else {
                at_start = false;
            }
            i = i + 1;
        }
        if at_start {
            proof {
                if n > 0 {
                    assert(is_separator(s@.last()));
                }
            }
            return false;
        }
        true
    }

    ///
    /// Creates a new pointer given a raw string description of
    /// the pointer.
    ///
    /// This operation may fail if:
    /// - the provided string is empty
    /// - the string contains a path element with no name (e.g. "Main/.Module")
    /// - the string describes modules within the subsystem part of the path (e.g. "Main.Subystem/Subsystem.Module")
    pub fn new(data: String) -> (r: Result<Self, ObjectPathParseError>)
        ensures
            match r {
                Ok(p) => parse_spec(data@) == Ok::<PathModel, ObjectPathParseError>(p.model())
                    && offsets_bounded(p.model()),
                Err(e) => parse_spec(data@) == Err::<PathModel, ObjectPathParseError>(e),
            },
    {
        let s = data.as_str();
        let len = char_len(s);
        if len == 0 {
            return Err(ObjectPathParseError::EmptyPath);
        }
        let dot_left = find_char(s, '.');
        let dot_right = rfind_char(s, '.');
        let slash_right = rfind_char(s, '/');
        let shbang = rfind_char(s, '#');

        let module_offset = match dot_left {
            Some(v) => v + 1,
            None => len,
        };
        let mut last_element_offset = if dot_right.is_some() {
            match dot_right {
                Some(v) => v + 1,
                None => 0,
            }
        } else {
            match slash_right {
                Some(v) => v + 1,
                None => 0,
            }
        };

        if let (Some(dl), Some(sr)) = (dot_left, slash_right) {
            if dl < sr {
                return Err(ObjectPathParseError::UnorderedPath);
            }
        }

        if !Self::check_elements(s) {
            return Err(ObjectPathParseError::EmptyPathElement);
        }

        let channel_offset = match shbang {
            Some(h) => {
                last_element_offset = h + 1;
                h + 1
            },
            None => len,
        };

        Ok(ObjectPath { data, module_offset, channel_offset, last_element_offset })
    }

    ///
    /// Creates a new pointer to a top-level subsystem.
    ///
    pub fn root_subsystem(name: String) -> (r: Self)
        requires
            plain_name(name@),
        ensures
            r.model() == root_subsystem_model(name@),
            offsets_bounded(r.model()),
            name@.len() > 0 ==> r.spec_is_subsystem(),
    {
        let len = char_len(name.as_str());
        Self { module_offset: len, channel_offset: len, last_element_offset: 0, data: name }
    }

    ///
    /// Creates a new pointer to a top-level module.
    /// This function cannot be used together with ndl
    /// since ndl requires a top-level subsystem.
    ///
    pub fn root_module(name: String) -> (r: Self)
        requires
            plain_name(name@),
        ensures
            r.model() == root_module_model(name@),
            offsets_bounded(r.model()),
            name@.len() > 0 ==> r.spec_is_module(),
    {
        let len = char_len(name.as_str());
        Self { channel_offset: len, data: name, last_element_offset: 0, module_offset: 0 }
    }

    ///
    /// Creates a new channel ident.
    ///
    pub fn channel_with(channel: &str, parent: &ObjectPath) -> (r: Self)
        requires
            !parent.spec_is_channel(),
        ensures
            r.model() == channel_child(parent.model(), channel@),
            offsets_bounded(r.model()),
            r.spec_is_channel(),
    {
        proof {
            use_type_invariant(parent);
            reveal_strlit("#");
        }
        let mut data = parent.data.clone();
        data.append("#");
        data.append(channel);
        let data_len = char_len(data.as_str());
        let last_element_offset = char_len(parent.data.as_str()) + 1;
        proof {
            assert(data@ =~= parent.data@ + seq!['#'] + channel@);
        }
        Self {
            data,
            last_element_offset,
            module_offset: parent.module_offset,
            channel_offset: last_element_offset,
        }
    }

    ///
    /// Creates a new pointer to a subsystem attached to a
    /// parent subsystem.
    ///
    pub fn subsystem_with_parent(name: &str, parent: &ObjectPath) -> (r: Self)
        requires
            plain_name(name@),
            parent.spec_is_subsystem(),
        ensures
            r.model() == subsystem_child(parent.model(), name@),
            offsets_bounded(r.model()),
            name@.len() > 0 ==> r.spec_is_subsystem(),
    {
        proof {
            use_type_invariant(parent);
            reveal_strlit("/");
        }
        let mut data = parent.data.clone();
        data.append("/");
        data.append(name);
        let data_len = char_len(data.as_str());
        let last_element_offset = char_len(parent.data.as_str()) + 1;
        proof {
            assert(data@ =~= parent.data@ + seq!['/'] + name@);
        }
        let len = data_len;
        Self { module_offset: len, channel_offset: len, last_element_offset, data }
    }

    ///
    /// Creates a new pointer to a module attached to some
    /// parent entity.
    ///
    pub fn module_with_parent(name: &str, parent: &ObjectPath) -> (r: Self)
        requires
            plain_name(name@),
            !parent.spec_is_channel(),
        ensures
            r.model() == module_child(parent.model(), name@),
            offsets_bounded(r.model()),
            name@.len() > 0 ==> r.spec_is_module(),
    {
        proof {
            use_type_invariant(parent);
            reveal_strlit(".");
        }
        let mut data = parent.data.clone();
        data.append(".");
        data.append(name);
        let data_len = char_len(data.as_str());
        let last_element_offset = char_len(parent.data.as_str()) + 1;
        proof {
            assert(data@ =~= parent.data@ + seq!['.'] + name@);
        }
        let module_offset = if parent.is_module() {
            parent.module_offset
        } else {
            last_element_offset
        };
        let len = data_len;
        Self { channel_offset: len, data, module_offset, last_element_offset }
    }

    /// Whether both paths hold the same text and offsets.
    pub fn equals(&self, other: &Self) -> (r: bool)
        ensures
            r == (self.model() == other.model()),
    {
        self.data == other.data && self.module_offset == other.module_offset
            && self.channel_offset == other.channel_offset
            && self.last_element_offset == other.last_element_offset
    }
}

impl PartialEq for ObjectPath {
    fn eq(&self, other: &Self) -> (r: bool) {
        self.equals(other)
    }
}

impl vstd::std_specs::cmp::PartialEqSpecImpl for ObjectPath {
    open spec fn obeys_eq_spec() -> bool {
        true
    }

    open spec fn eq_spec(&self, other: &Self) -> bool {
        self.model() == other.model()
    }
}

impl Eq for ObjectPath {}

impl Clone for ObjectPath {
    fn clone(&self) -> (r: Self)
        ensures
            r.model() == self.model(),
    {
        proof {
            use_type_invariant(self);
        }
        ObjectPath {
            data: self.data.clone(),
            module_offset: self.module_offset,
            channel_offset: self.channel_offset,
            last_element_offset: self.last_element_offset,
        }
    }
}

/// A module created under a path is that path's child: its parent is the path
/// again, and it is itself built as the constructors build paths.
pub proof fn law_module_child_parent(parent: PathModel, name: Seq<char>)
    requires
        canonical(parent),
        plain_name(name),
        name.len() > 0,
    ensures
        parent_of_model(module_child(parent, name)) == Some(parent),
        canonical(module_child(parent, name)),
{
    let c = module_child(parent, name);
    let k = parent.0.len() as int;
    assert(c.0.subrange(0, k) =~= parent.0);
    lemma_last_index_of(name, '.');
    assert forall|j: int| k < j < c.0.len() implies c.0[j] != '.' by {
        assert(c.0[j] == name[j - k - 1]);
    }
    lemma_last_index_of_unique(c.0, '.', k);
    lemma_last_index_of(parent.0, '.');
    lemma_last_index_of(parent.0, '/');
}

/// A subsystem created under a subsystem, at any depth, has that subsystem
/// as its parent.
pub proof fn law_subsystem_child_parent(parent: PathModel, name: Seq<char>)
    requires
        canonical(parent),
        model_is_subsystem(parent),
        plain_name(name),
        name.len() > 0,
    ensures
        parent_of_model(subsystem_child(parent, name)) == Some(parent),
        canonical(subsystem_child(parent, name)),
{
    let c = subsystem_child(parent, name);
    let k = parent.0.len() as int;
    assert(c.0.subrange(0, k) =~= parent.0);
    lemma_last_index_of(name, '/');
    assert forall|j: int| k < j < c.0.len() implies c.0[j] != '/' by {
        assert(c.0[j] == name[j - k - 1]);
    }
    lemma_last_index_of_unique(c.0, '/', k);
    lemma_last_index_of(parent.0, '/');
}

/// Top-level subsystems and modules are built canonically and have no parent.
pub proof fn law_roots_have_no_parent(name: Seq<char>)
    requires
        plain_name(name),
        name.len() > 0,
    ensures
        canonical(root_subsystem_model(name)),
        canonical(root_module_model(name)),
        parent_of_model(root_subsystem_model(name)) is None,
        parent_of_model(root_module_model(name)) is None,
        model_is_subsystem(root_subsystem_model(name)),
        model_is_module(root_module_model(name)),
{
    lemma_last_index_of(name, '/');
    lemma_last_index_of(name, '.');
}

/// The name of a child element is the name it was created with, and the part
/// before it is the parent's path.
pub proof fn law_child_name_and_parent_path(parent: PathModel, name: Seq<char>)
    ensures
        ({
            let m = module_child(parent, name);
            &&& m.0.subrange(m.3 as int, m.0.len() as int) == name
            &&& m.0.subrange(0, m.3 - 1) == parent.0
        }),
        ({
            let s = subsystem_child(parent, name);
            &&& s.0.subrange(s.3 as int, s.0.len() as int) == name
            &&& s.0.subrange(0, s.3 - 1) == parent.0
        }),
        ({
            let c = channel_child(parent, name);
            &&& c.0.subrange(c.3 as int, c.0.len() as int) == name
            &&& c.0.subrange(0, c.3 - 1) == parent.0
        }),
{
    let m = module_child(parent, name);
    assert(m.0.subrange(m.3 as int, m.0.len() as int) =~= name);
    assert(m.0.subrange(0, m.3 - 1) =~= parent.0);
    let s = subsystem_child(parent, name);
    assert(s.0.subrange(s.3 as int, s.0.len() as int) =~= name);
    assert(s.0.subrange(0, s.3 - 1) =~= parent.0);
    let c = channel_child(parent, name);
    assert(c.0.subrange(c.3 as int, c.0.len() as int) =~= name);
    assert(c.0.subrange(0, c.3 - 1) =~= parent.0);
}

/// The text of a path up to, not including, a separator at `p` still has
/// non-empty elements.
proof fn lemma_prefix_elements(s: Seq<char>, p: int)
    requires
        elements_non_empty(s),
        0 <= p < s.len(),
        is_separator(s[p]),
    ensures
        elements_non_empty(s.subrange(0, p)),
{
    let d = s.subrange(0, p);
    assert(p > 0);
    assert(d.last() == s[p - 1]);
    assert forall|i: int| 0 <= i < d.len() && is_separator(#[trigger] d[i]) implies i > 0 && !is_separator(d[i - 1]) by {
        assert(d[i] == s[i]);
        assert(is_separator(s[i]));
    }
}

/// The parent of a parsed path is what parsing the parent's path gives:
/// `parent()` equals `new(parent_path())` for every path that has a parent,
/// provided the parent path itself names no channel and parses (its
/// elements are not empty).
pub proof fn law_parent_is_parsed_parent_path(s: Seq<char>)
    requires
        parse_spec(s) is Ok,
        parse_spec(s)->Ok_0.3 != 0,
        !s.subrange(0, parse_spec(s)->Ok_0.3 - 1).contains('#'),
        elements_non_empty(s.subrange(0, parse_spec(s)->Ok_0.3 - 1)),
    ensures
        ({
            let m = parse_spec(s)->Ok_0;
            let d = s.subrange(0, m.3 - 1);
            &&& parse_spec(d) is Ok
            &&& parent_of_model(m) == Some(parse_spec(d)->Ok_0)
        }),
{
    lemma_last_index_of(s, '#');
    if last_index_of(s, '#') is Some {
        lemma_channel_parent_is_parsed(s);
    } else {
        assert(!s.contains('#')) by {
            if s.contains('#') {
                let j = choose|j: int| 0 <= j < s.len() && s[j] == '#';
                assert(s[j] != '#');
            }
        }
        lemma_plain_parent_is_parsed(s);
    }
}

/// The parent of a channel is the path before the `#`, parsed.
proof fn lemma_channel_parent_is_parsed(s: Seq<char>)
    requires
        parse_spec(s) is Ok,
        last_index_of(s, '#') is Some,
        !s.subrange(0, last_index_of(s, '#')->0).contains('#'),
        elements_non_empty(s.subrange(0, last_index_of(s, '#')->0)),
    ensures
        ({
            let m = parse_spec(s)->Ok_0;
            let d = s.subrange(0, m.3 - 1);
            &&& m.3 != 0
            &&& parse_spec(d) is Ok
            &&& parent_of_model(m) == Some(parse_spec(d)->Ok_0)
        }),
{
    let m = parse_spec(s)->Ok_0;
    let h = last_index_of(s, '#')->0;
    let d = s.subrange(0, h);
    lemma_last_index_of(s, '#');
    lemma_last_index_of(s, '.');
    lemma_last_index_of(s, '/');
    lemma_first_index_of(s, '.');
    lemma_last_index_of(d, '#');
    lemma_last_index_of(d, '.');
    lemma_last_index_of(d, '/');
    lemma_first_index_of(d, '.');
    assert(m.3 == h + 1);
    assert(forall|j: int| 0 <= j < d.len() ==> d[j] == s[j]);
    assert(last_index_of(d, '#') is None) by {
        if last_index_of(d, '#') is Some {
            let k = last_index_of(d, '#')->0;
            assert(d[k] == '#');
            assert(d.contains('#'));
        }
    }
    match first_index_of(d, '.') {
        Some(fd) => {
            lemma_first_index_of_unique(s, '.', fd);
            assert(last_index_of(d, '.') is Some) by {
                if last_index_of(d, '.') is None {
                    assert(d[fd] != '.');
                }
            }
            match last_index_of(d, '/') {
                Some(wd) => {
                    assert(s[wd] == '/');
                    assert(last_index_of(s, '/') is Some);
                    assert(wd <= last_index_of(s, '/')->0);
                },
                None => {},
            }
        },
        None => {
            assert(last_index_of(d, '.') is None) by {
                if last_index_of(d, '.') is Some {
                    let k = last_index_of(d, '.')->0;
                    assert(d[k] != '.');
                }
            }
            match first_index_of(s, '.') {
                Some(fs) => {
                    if fs < h {
                        assert(d[fs] == '.');
                    }
                    assert(s[h] == '#');
                },
                None => {},
            }
        },
    }
}

/// The parent of a path without a channel is its parent path, parsed.
proof fn lemma_plain_parent_is_parsed(s: Seq<char>)
    requires
        parse_spec(s) is Ok,
        !s.contains('#'),
        parse_spec(s)->Ok_0.3 != 0,
    ensures
        ({
            let m = parse_spec(s)->Ok_0;
            let d = s.subrange(0, m.3 - 1);
            &&& parse_spec(d) is Ok
            &&& parent_of_model(m) == Some(parse_spec(d)->Ok_0)
        }),
{
    let m = parse_spec(s)->Ok_0;
    let p = m.3 - 1;
    let d = s.subrange(0, p);
    lemma_last_index_of(s, '#');
    lemma_last_index_of(s, '.');
    lemma_last_index_of(s, '/');
    lemma_first_index_of(s, '.');
    lemma_last_index_of(d, '#');
    lemma_last_index_of(d, '.');
    lemma_last_index_of(d, '/');
    lemma_first_index_of(d, '.');
    assert(last_index_of(s, '#') is None) by {
        if last_index_of(s, '#') is Some {
            let h = last_index_of(s, '#')->0;
            assert(s.contains('#')) by { assert(s[h] == '#'); }
        }
    }
    assert(last_index_of(d, '#') is None) by {
        if last_index_of(d, '#') is Some {
            let h = last_index_of(d, '#')->0;
            assert(s[h] == '#');
            assert(s.contains('#'));
        }
    }
    assert forall|j: int| 0 <= j < d.len() implies d[j] == s[j] by {}
    if last_index_of(s, '.') is Some {
        let l = last_index_of(s, '.')->0;
        let f = first_index_of(s, '.')->0;
        assert(p == l);
        lemma_prefix_elements(s, p);
        if f == l {
            assert(last_index_of(d, '.') is None) by {
                if last_index_of(d, '.') is Some {
                    let k = last_index_of(d, '.')->0;
                    assert(s[k] == '.');
                }
            }
        } else {
            assert(f < l);
            lemma_first_index_of_unique(d, '.', f);
            assert(last_index_of(d, '.') is Some);
            match last_index_of(s, '/') {
                Some(w) => {
                    assert(w < f);
                    lemma_last_index_of_unique(d, '/', w);
                },
                None => {
                    assert(last_index_of(d, '/') is None) by {
                        if last_index_of(d, '/') is Some {
                            let k = last_index_of(d, '/')->0;
                            assert(s[k] == '/');
                        }
                    }
                },
            }
        }
    } else {
        let w = last_index_of(s, '/')->0;
        assert(p == w);
        lemma_prefix_elements(s, p);
        assert(last_index_of(d, '.') is None) by {
            if last_index_of(d, '.') is Some {
                let k = last_index_of(d, '.')->0;
                assert(s[k] == '.');
            }
        }
        assert(first_index_of(d, '.') is None) by {
            if first_index_of(d, '.') is Some {
                let k = first_index_of(d, '.')->0;
                assert(s[k] == '.');
            }
        }
        assert(s.last() != '/');
    }
}

/// Every path is exactly one kind of object: a subsystem, a module or a
/// channel.
pub proof fn law_exactly_one_kind(m: PathModel)
    ensures
        model_is_subsystem(m) || model_is_module(m) || model_is_channel(m),
        !(model_is_subsystem(m) && model_is_module(m)),
        !(model_is_subsystem(m) && model_is_channel(m)),
        !(model_is_module(m) && model_is_channel(m)),
{
}

} // verus!
