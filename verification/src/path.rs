//! Paths as sequences of named components.
//!
//! A path is compared, measured and cut component by component, never as raw
//! text: `foo` is no prefix of `foobar`. Two kinds of path occur. A [`RelPath`]
//! lies inside a worktree and is written with `/` between its components. An
//! [`AbsPath`] is a path of the file system, handed over already split into its
//! components, together with the text that shows it.

use vstd::prelude::*;

verus! {

/// Whether `name` can stand as one ordinary component of a path: it is not
/// empty, holds no separator, and is neither `.` nor `..`.
pub open spec fn is_normal_name(name: Seq<char>) -> bool {
    &&& name.len() > 0
    &&& !name.contains('/')
    &&& name != seq!['.']
    &&& name != seq!['.', '.']
}

/// The names that a list of components holds, in order.
pub open spec fn names_of(components: Seq<String>) -> Seq<Seq<char>> {
    Seq::new(components.len(), |i: int| components[i]@)
}

/// Whether every name in `names` is an ordinary component.
pub open spec fn all_normal(names: Seq<Seq<char>>) -> bool {
    forall|i: int| 0 <= i < names.len() ==> is_normal_name(#[trigger] names[i])
}

/// The pieces of `text` that lie between its `/` characters. A text without
/// `/` is one piece; each `/` ends a piece and starts the next, so a text of
/// `n` separators has `n + 1` pieces, some of them possibly empty.
pub open spec fn split_segments(text: Seq<char>) -> Seq<Seq<char>>
    decreases text.len(),
{
    if text.len() == 0 {
        seq![Seq::<char>::empty()]
    } else if text.last() == '/' {
        split_segments(text.drop_last()).push(Seq::<char>::empty())
    } else {
        let before = split_segments(text.drop_last());
        before.drop_last().push(before.last().push(text.last()))
    }
}

/// The names of `names` written one after another with `/` between them.
pub open spec fn join_names(names: Seq<Seq<char>>) -> Seq<char>
    decreases names.len(),
{
    if names.len() == 0 {
        Seq::<char>::empty()
    } else if names.len() == 1 {
        names[0]
    } else {
        join_names(names.drop_last()) + seq!['/'] + names.last()
    }
}

/// The components that the text of a worktree-relative path stands for. The
/// empty text is the path without components; any other text must split into
/// ordinary components.
pub open spec fn unix_components(text: Seq<char>) -> Option<Seq<Seq<char>>> {
    if text.len() == 0 {
        Some(Seq::<Seq<char>>::empty())
    } else if all_normal(split_segments(text)) {
        Some(split_segments(text))
    } else {
        None
    }
}

/// The repository-relative text of a file at `file` for a repository rooted at
/// `root`: the components of `file` below `root`, joined by `/`. There is none
/// where `root` is no prefix of `file`, or where a component below `root` is
/// not an ordinary name.
pub open spec fn repo_relative_text(file: Seq<Seq<char>>, root: Seq<Seq<char>>) -> Option<
    Seq<char>,
> {
    if root.is_prefix_of(file) && all_normal(file.skip(root.len() as int)) {
        Some(join_names(file.skip(root.len() as int)))
    } else {
        None
    }
}

/// A text without a separator is one piece.
proof fn lemma_split_of_name(name: Seq<char>)
    requires
        !name.contains('/'),
    ensures
        split_segments(name) == seq![name],
    decreases name.len(),
{
    if name.len() == 0 {
        assert(name =~= Seq::<char>::empty());
    } else {
        let shorter = name.drop_last();
        assert(!shorter.contains('/')) by {
            if shorter.contains('/') {
                let i = choose|i: int| 0 <= i < shorter.len() && shorter[i] == '/';
                assert(name[i] == '/');
            }
        }
        assert(name.last() != '/') by {
            if name.last() == '/' {
                assert(name[name.len() - 1] == '/');
            }
        }
        lemma_split_of_name(shorter);
        let before = split_segments(shorter);
        assert(before.last().push(name.last()) =~= name);
        assert(before.drop_last().push(name) =~= seq![name]);
    }
}

/// A name behind a separator is a piece of its own.
proof fn lemma_split_of_appended(text: Seq<char>, name: Seq<char>)
    requires
        !name.contains('/'),
    ensures
        split_segments(text + seq!['/'] + name) == split_segments(text).push(name),
    decreases name.len(),
{
    let whole = text + seq!['/'] + name;
    if name.len() == 0 {
        assert(whole.last() == '/');
        assert(whole.drop_last() =~= text);
        assert(name =~= Seq::<char>::empty());
    } else {
        let shorter = name.drop_last();
        assert(!shorter.contains('/')) by {
            if shorter.contains('/') {
                let i = choose|i: int| 0 <= i < shorter.len() && shorter[i] == '/';
                assert(name[i] == '/');
            }
        }
        assert(name.last() != '/') by {
            if name.last() == '/' {
                assert(name[name.len() - 1] == '/');
            }
        }
        lemma_split_of_appended(text, shorter);
        assert(whole.last() == name.last());
        assert(whole.drop_last() =~= text + seq!['/'] + shorter);
        let before = split_segments(whole.drop_last());
        assert(before == split_segments(text).push(shorter));
        assert(before.drop_last() =~= split_segments(text));
        assert(before.last().push(name.last()) =~= name);
    }
}

/// Names that are written with separators between them are what the text
/// splits into.
proof fn lemma_split_of_join(names: Seq<Seq<char>>)
    requires
        names.len() > 0,
        all_normal(names),
    ensures
        split_segments(join_names(names)) == names,
    decreases names.len(),
{
    let last = names.last();
    assert(is_normal_name(names[names.len() - 1]));
    if names.len() == 1 {
        lemma_split_of_name(names[0]);
        assert(seq![names[0]] =~= names);
    } else {
        let shorter = names.drop_last();
        assert(all_normal(shorter)) by {
            assert forall|i: int| 0 <= i < shorter.len() implies is_normal_name(
                #[trigger] shorter[i],
            ) by {
                assert(shorter[i] == names[i]);
            }
        }
        lemma_split_of_join(shorter);
        lemma_split_of_appended(join_names(shorter), last);
        assert(shorter.push(last) =~= names);
    }
}

/// A path that is written and read again is the same path.
///
/// For every sequence of ordinary names: the text that has the names with `/`
/// between them reads as the path of exactly these components.
pub proof fn lemma_unix_text_round_trip(names: Seq<Seq<char>>)
    requires
        all_normal(names),
    ensures
        unix_components(join_names(names)) == Some(names),
{
    if names.len() == 0 {
        assert(names =~= Seq::<Seq<char>>::empty());
    } else {
        lemma_split_of_join(names);
        lemma_join_is_not_empty(names);
    }
}

/// The text of at least one ordinary name is not empty.
proof fn lemma_join_is_not_empty(names: Seq<Seq<char>>)
    requires
        names.len() > 0,
        all_normal(names),
    ensures
        join_names(names).len() > 0,
{
    assert(is_normal_name(names[names.len() - 1]));
    if names.len() == 1 {
        assert(is_normal_name(names[0]));
    }
}

/// Calls `String::push`: the text afterwards is the text before with `c` behind it.
#[verifier::external_body]
fn push_char(text: &mut String, c: char)
    ensures
        final(text)@ == old(text)@.push(c),
{
    text.push(c)
}

/// Decides whether `name` is an ordinary component.
pub fn is_normal_component(name: &str) -> (normal: bool)
    ensures
        normal == is_normal_name(name@),
{
    let mut length: usize = 0;
    let mut only_dots = true;
    let mut has_separator = false;
    for c in it: name.chars()
        invariant
            it.seq() == name@,
            length == if it.index() < 3 { it.index() } else { 3 },
            only_dots == (forall|j: int| 0 <= j < it.index() ==> name@[j] == '.'),
            has_separator == (exists|j: int| 0 <= j < it.index() && name@[j] == '/'),
    {
        if length < 3 {
            length = length + 1;
        }
        if c != '.' {
            only_dots = false;
        }
        if c == '/' {
            has_separator = true;
        }
    }
    proof {
        if name@.len() == 1 && only_dots {
            assert(name@ =~= seq!['.']);
        }
        if name@.len() == 2 && only_dots {
            assert(name@ =~= seq!['.', '.']);
        }
        if has_separator {
            let j = choose|j: int| 0 <= j < name@.len() && name@[j] == '/';
            assert(name@[j] == '/');
        }
    }
    length > 0 && !has_separator && !(only_dots && length < 3)
}

/// Decides whether every component of `components` from `start` on is an
/// ordinary name.
pub fn all_normal_from(components: &Vec<String>, start: usize) -> (normal: bool)
    requires
        start <= components.len(),
    ensures
        normal == all_normal(names_of(components@).skip(start as int)),
{
    let mut i: usize = start;
    while i < components.len()
        invariant
            start <= i <= components.len(),
            forall|j: int| start <= j < i ==> is_normal_name(#[trigger] components@[j]@),
        decreases components.len() - i,
    {
        if !is_normal_component(components[i].as_str()) {
            proof {
                let rest = names_of(components@).skip(start as int);
                assert(rest[i - start] == components@[i as int]@);
            }
            return false;
        }
        i += 1;
    }
    proof {
        let rest = names_of(components@).skip(start as int);
        assert forall|j: int| 0 <= j < rest.len() implies is_normal_name(#[trigger] rest[j]) by {
            assert(rest[j] == components@[start + j]@);
        }
    }
    true
}

/// Decides whether two lists of components hold the same names in the same
/// order.
pub fn same_names(a: &Vec<String>, b: &Vec<String>) -> (same: bool)
    ensures
        same == (names_of(a@) == names_of(b@)),
{
    if a.len() != b.len() {
        proof {
            assert(names_of(a@).len() != names_of(b@).len());
        }
        return false;
    }
    let mut i: usize = 0;
    while i < a.len()
        invariant
            a.len() == b.len(),
            i <= a.len(),
            forall|j: int| 0 <= j < i ==> a@[j]@ == b@[j]@,
        decreases a.len() - i,
    {
        if !(a[i] == b[i]) {
            proof {
                assert(names_of(a@)[i as int] != names_of(b@)[i as int]);
            }
            return false;
        }
        i += 1;
    }
    proof {
        assert(names_of(a@) =~= names_of(b@));
    }
    true
}

/// Decides whether the names of `base` are the first names of `path`.
pub fn names_start_with(path: &Vec<String>, base: &Vec<String>) -> (starts: bool)
    ensures
        starts == names_of(base@).is_prefix_of(names_of(path@)),
{
    if base.len() > path.len() {
        return false;
    }
    let mut i: usize = 0;
    while i < base.len()
        invariant
            base.len() <= path.len(),
            i <= base.len(),
            forall|j: int| 0 <= j < i ==> base@[j]@ == path@[j]@,
        decreases base.len() - i,
    {
        if !(base[i] == path[i]) {
            proof {
                let head = names_of(path@).subrange(0, base.len() as int);
                assert(head[i as int] == path@[i as int]@);
                assert(names_of(base@)[i as int] == base@[i as int]@);
            }
            return false;
        }
        i += 1;
    }
    proof {
        assert(names_of(base@) =~= names_of(path@).subrange(0, base.len() as int));
    }
    true
}

/// Copies the components of `components` from `start` on.
pub fn copy_names_from(components: &Vec<String>, start: usize) -> (copy: Vec<String>)
    requires
        start <= components.len(),
    ensures
        copy@ == components@.skip(start as int),
        names_of(copy@) == names_of(components@).skip(start as int),
{
    let mut copy: Vec<String> = Vec::new();
    let mut i: usize = start;
    while i < components.len()
        invariant
            start <= i <= components.len(),
            copy@ == components@.subrange(start as int, i as int),
        decreases components.len() - i,
    {
        copy.push(components[i].clone());
        proof {
            assert(copy@ =~= components@.subrange(start as int, i + 1));
        }
        i += 1;
    }
    proof {
        assert(copy@ =~= components@.skip(start as int));
        assert(names_of(copy@) =~= names_of(components@).skip(start as int));
    }
    copy
}

/// Writes the components of `components` from `start` on one after another,
/// with `/` between them.
pub fn join_from(components: &Vec<String>, start: usize) -> (text: String)
    requires
        start <= components.len(),
    ensures
        text@ == join_names(names_of(components@).skip(start as int)),
{
    let mut text = String::new();
    let ghost names = names_of(components@);
    let mut i: usize = start;
    while i < components.len()
        invariant
            start <= i <= components.len(),
            names == names_of(components@),
            text@ == join_names(names.subrange(start as int, i as int)),
        decreases components.len() - i,
    {
        proof {
            reveal_strlit("/");
            let upto = names.subrange(start as int, i + 1);
            assert(upto.drop_last() =~= names.subrange(start as int, i as int));
            assert(upto.last() == components@[i as int]@);
            if i == start {
                assert(text@ =~= Seq::<char>::empty());
            } else {
                assert("/"@ =~= seq!['/']);
            }
        }
        if i > start {
            text.append("/");
        }
        text.append(components[i].as_str());
        proof {
            let upto = names.subrange(start as int, i + 1);
            if i == start {
                assert(text@ =~= components@[i as int]@);
            }
            assert(text@ =~= join_names(upto));
        }
        i += 1;
    }
    proof {
        assert(names.subrange(start as int, components.len() as int) =~= names.skip(
            start as int,
        ));
    }
    text
}

/// A path inside a worktree, relative to the worktree's root.
///
/// Its view is the sequence of its components; the path of the root itself has
/// none.
#[derive(Debug)]
pub struct RelPath {
    components: Vec<String>,
}

impl View for RelPath {
    type V = Seq<Seq<char>>;

    closed spec fn view(&self) -> Seq<Seq<char>> {
        names_of(self.components@)
    }
}

impl Clone for RelPath {
    fn clone(&self) -> (copy: Self)
        ensures
            copy@ == self@,
    {
        RelPath { components: copy_names_from(&self.components, 0) }
    }
}

impl RelPath {
    /// Whether each component is an ordinary name.
    pub open spec fn well_formed(&self) -> bool {
        all_normal(self@)
    }

    /// The path of the worktree's root.
    pub fn empty() -> (path: Self)
        ensures
            path@ == Seq::<Seq<char>>::empty(),
            path.well_formed(),
    {
        let path = RelPath { components: Vec::new() };
        proof {
            assert(path@ =~= Seq::<Seq<char>>::empty());
        }
        path
    }

    /// Reads a path written with `/` between its components. The empty text is
    /// the root. A text with an empty component, with `.` or with `..` is no
    /// path.
    pub fn unix(text: &str) -> (parsed: Option<Self>)
        ensures
            match parsed {
                Some(path) => unix_components(text@) == Some(path@) && path.well_formed(),
                None => unix_components(text@) is None,
            },
    {
        if text.unicode_len() == 0 {
            return Some(RelPath::empty());
        }
        let mut components: Vec<String> = Vec::new();
        let mut current = String::new();
        let mut valid = true;
        proof {
            assert(text@.take(0) =~= Seq::<char>::empty());
            assert(names_of(components@).push(current@) =~= split_segments(text@.take(0)));
        }
        for c in it: text.chars()
            invariant
                it.seq() == text@,
                names_of(components@).push(current@) == split_segments(text@.take(it.index())),
                valid == all_normal(names_of(components@)),
        {
            proof {
                let upto = text@.take(it.index() + 1);
                assert(upto.drop_last() =~= text@.take(it.index()));
                assert(upto.last() == c);
            }
            let ghost before = names_of(components@).push(current@);
            if c == '/' {
                let normal = is_normal_component(current.as_str());
                let ghost names_before = names_of(components@);
                components.push(current);
                current = String::new();
                proof {
                    assert(names_of(components@) =~= before);
                    assert(names_of(components@).push(current@) =~= before.push(
                        Seq::<char>::empty(),
                    ));
                    if valid && normal {
                        assert(all_normal(names_of(components@)));
                    } else if !valid {
                        let j = choose|j: int|
                            0 <= j < names_before.len() && !is_normal_name(names_before[j]);
                        assert(names_of(components@)[j] == names_before[j]);
                    } else {
                        assert(names_of(components@)[names_before.len() as int] == before.last());
                    }
                }
                valid = valid && normal;
            } else {
                push_char(&mut current, c);
                proof {
                    assert(before.drop_last() =~= names_of(components@));
                    assert(names_of(components@).push(current@) =~= before.drop_last().push(
                        before.last().push(c),
                    ));
                }
            }
        }
        proof {
            assert(text@.take(text@.len() as int) =~= text@);
        }
        let normal = is_normal_component(current.as_str());
        let ghost names_before = names_of(components@);
        let ghost segments = names_before.push(current@);
        components.push(current);
        proof {
            assert(names_of(components@) =~= segments);
            if valid && normal {
                assert(all_normal(segments));
            } else if !valid {
                let j = choose|j: int|
                    0 <= j < names_before.len() && !is_normal_name(names_before[j]);
                assert(segments[j] == names_before[j]);
            } else {
                assert(segments[names_before.len() as int] == current@);
            }
        }
        if valid && normal {
            Some(RelPath { components })
        } else {
            None
        }
    }

    /// The components, first to last.
    pub fn components(&self) -> (components: &Vec<String>)
        ensures
            names_of(components@) == self@,
    {
        &self.components
    }

    /// The path as text, with `/` between its components.
    pub fn to_unix_string(&self) -> (text: String)
        ensures
            text@ == join_names(self@),
    {
        let text = join_from(&self.components, 0);
        proof {
            assert(self@.skip(0) =~= self@);
        }
        text
    }

    /// Whether the path has no components, which makes it the worktree's root.
    pub fn is_empty(&self) -> (empty: bool)
        ensures
            empty == (self@.len() == 0),
    {
        self.components.len() == 0
    }

    /// Whether `other` names the same path.
    pub fn same_path(&self, other: &RelPath) -> (same: bool)
        ensures
            same == (self@ == other@),
    {
        same_names(&self.components, &other.components)
    }

    /// Whether this path lies at or below `base`: the components of `base` are
    /// the first components of this path.
    pub fn starts_with(&self, base: &RelPath) -> (starts: bool)
        ensures
            starts == base@.is_prefix_of(self@),
    {
        names_start_with(&self.components, &base.components)
    }
}

/// A path of the file system, split into its components.
///
/// Its view is the sequence of its components; two paths are the same when
/// their components are. The text that shows the path is carried along and
/// takes no part in any comparison.
#[derive(Debug)]
pub struct AbsPath {
    text: String,
    components: Vec<String>,
}

impl View for AbsPath {
    type V = Seq<Seq<char>>;

    closed spec fn view(&self) -> Seq<Seq<char>> {
        names_of(self.components@)
    }
}

impl Clone for AbsPath {
    fn clone(&self) -> (copy: Self)
        ensures
            copy@ == self@,
            copy.display_text() == self.display_text(),
    {
        AbsPath { text: self.text.clone(), components: copy_names_from(&self.components, 0) }
    }
}

impl AbsPath {
    /// The text that shows the path.
    pub closed spec fn display_text(&self) -> Seq<char> {
        self.text@
    }

    /// A path with the given components, shown as `text`.
    pub fn new(text: String, components: Vec<String>) -> (path: Self)
        ensures
            path@ == names_of(components@),
            path.display_text() == text@,
    {
        AbsPath { text, components }
    }

    /// A path has no more components than a machine can count.
    pub proof fn lemma_depth_is_bounded(&self)
        ensures
            self@.len() <= usize::MAX,
    {
        assert(self@.len() == self.components.len());
    }

    /// The components, first to last.
    pub fn components(&self) -> (components: &Vec<String>)
        ensures
            names_of(components@) == self@,
    {
        &self.components
    }

    /// The text that shows the path.
    pub fn display(&self) -> (text: &String)
        ensures
            text@ == self.display_text(),
    {
        &self.text
    }

    /// The number of components.
    pub fn depth(&self) -> (depth: usize)
        ensures
            depth == self@.len(),
    {
        self.components.len()
    }

    /// Whether `other` names the same path.
    pub fn same_path(&self, other: &AbsPath) -> (same: bool)
        ensures
            same == (self@ == other@),
    {
        same_names(&self.components, &other.components)
    }

    /// Whether this path lies at or below `base`.
    pub fn starts_with(&self, base: &AbsPath) -> (starts: bool)
        ensures
            starts == base@.is_prefix_of(self@),
    {
        names_start_with(&self.components, &base.components)
    }

    /// The components of this path below `base`, or `None` where this path
    /// does not lie at or below `base`.
    pub fn strip_prefix(&self, base: &AbsPath) -> (rest: Option<Vec<String>>)
        ensures
            match rest {
                Some(names) => base@.is_prefix_of(self@) && names_of(names@) == self@.skip(
                    base@.len() as int,
                ),
                None => !base@.is_prefix_of(self@),
            },
    {
        if names_start_with(&self.components, &base.components) {
            Some(copy_names_from(&self.components, base.components.len()))
        } else {
            None
        }
    }

    /// The path of this file inside a repository rooted at `root`, as the text
    /// that the repository knows it by: the components below `root`, joined by
    /// `/`. There is none where the file does not lie at or below `root`, or
    /// where a component below `root` is not an ordinary name.
    pub fn relative_to(&self, root: &AbsPath) -> (relative: Option<String>)
        ensures
            match relative {
                Some(text) => repo_relative_text(self@, root@) == Some(text@),
                None => repo_relative_text(self@, root@) is None,
            },
    {
        if !names_start_with(&self.components, &root.components) {
            return None;
        }
        let start = root.components.len();
        if !all_normal_from(&self.components, start) {
            return None;
        }
        Some(join_from(&self.components, start))
    }
}

} // verus!
