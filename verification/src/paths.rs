//! File paths as a root and a list of components.

use vstd::prelude::*;

use crate::text;

verus! {

broadcast use text::views_push;

/// A path: what it starts from (empty when relative, `/` or a drive such as
/// `C:\` when absolute) and its components.
#[derive(Debug, PartialEq, Eq)]
pub struct FilePath {
    pub root: String,
    pub parts: Vec<String>,
}

/// What a path holds, as characters.
#[verifier::ext_equal]
pub ghost struct PathView {
    pub root: Seq<char>,
    pub parts: Seq<Seq<char>>,
}

impl View for FilePath {
    type V = PathView;

    open spec fn view(&self) -> PathView {
        PathView { root: self.root@, parts: text::views(self.parts@) }
    }
}

impl DeepView for FilePath {
    type V = PathView;

    open spec fn deep_view(&self) -> PathView {
        self@
    }
}

/// What each of the paths holds, in order.
pub open spec fn views(v: Seq<FilePath>) -> Seq<PathView> {
    v.map_values(|p: FilePath| p@)
}

pub broadcast proof fn paths_push(v: Seq<FilePath>, p: FilePath)
    ensures
        #[trigger] views(v.push(p)) == views(v).push(p@),
{
    assert(views(v.push(p)) =~= views(v).push(p@));
}

/// Copies a list of paths.
pub fn clone_paths(v: &Vec<FilePath>) -> (r: Vec<FilePath>)
    ensures
        views(r@) == views(v@),
{
    let mut r: Vec<FilePath> = Vec::new();
    let mut i: usize = 0;
    while i < v.len()
        invariant
            i <= v@.len(),
            views(r@) == views(v@).take(i as int),
        decreases v@.len() - i,
    {
        let ghost before = r@;
        let p = v[i].clone();
        r.push(p);
        i = i + 1;
        proof {
            paths_push(before, p);
            assert(views(r@) =~= views(v@).take(i as int));
        }
    }
    proof {
        assert(views(v@).take(i as int) =~= views(v@));
    }
    r
}

impl Clone for FilePath {
    fn clone(&self) -> (r: FilePath)
        ensures
            r@ == self@,
    {
        let root = self.root.clone();
        let parts = text::clone_strings(&self.parts);
        FilePath { root, parts }
    }
}

/// Whether a piece of text counts as a component: neither empty nor `.`,
/// except for a `.` that starts a relative path.
pub open spec fn counts(piece: Seq<char>, leading: bool) -> bool {
    piece.len() > 0 && (piece == seq!['.'] ==> leading)
}

/// The components among the first `n` pieces of a path's text.
pub open spec fn components(ps: Seq<Seq<char>>, relative: bool, n: int) -> Seq<Seq<char>>
    decreases n,
{
    if n <= 0 {
        Seq::empty()
    } else {
        let before = components(ps, relative, n - 1);
        if counts(ps[n - 1], relative && n == 1) {
            before.push(ps[n - 1])
        } else {
            before
        }
    }
}

/// The path that a text with `/` between components stands for.
pub open spec fn parsed(s: Seq<char>) -> PathView {
    let absolute = s.len() > 0 && s[0] == '/';
    let ps = text::pieces(s, '/');
    PathView {
        root: if absolute {
            seq!['/']
        } else {
            Seq::empty()
        },
        parts: components(ps, !absolute, ps.len() as int),
    }
}

/// The character shown between components: a backslash under a root that
/// holds one, otherwise a slash.
pub open spec fn separator(root: Seq<char>) -> char {
    if root.contains('\\') {
        '\\'
    } else {
        '/'
    }
}

impl PathView {
    pub open spec fn shown(self) -> Seq<char> {
        self.root + text::joined(self.parts, separator(self.root))
    }

    pub open spec fn parent(self) -> Option<PathView> {
        if self.parts.len() == 0 {
            None
        } else {
            Some(PathView { root: self.root, parts: self.parts.drop_last() })
        }
    }

    pub open spec fn file_name(self) -> Option<Seq<char>> {
        if self.parts.len() == 0 || self.parts.last() == seq!['.'] || self.parts.last() == seq![
            '.',
            '.',
        ] {
            None
        } else {
            Some(self.parts.last())
        }
    }

    pub open spec fn joined(self, rest: PathView) -> PathView {
        if rest.root.len() > 0 {
            rest
        } else {
            PathView { root: self.root, parts: self.parts + rest.parts }
        }
    }

    pub open spec fn under(self, base: PathView) -> bool {
        &&& self.root == base.root
        &&& base.parts.len() <= self.parts.len()
        &&& self.parts.take(base.parts.len() as int) == base.parts
    }

    pub open spec fn child(self, name: Seq<char>) -> PathView {
        PathView { root: self.root, parts: self.parts.push(name) }
    }
}

/// A path without the root in front; as it is when it is not below the root.
pub open spec fn relative_to(p: PathView, root: PathView) -> PathView {
    if p.under(root) {
        PathView { root: Seq::empty(), parts: p.parts.skip(root.parts.len() as int) }
    } else {
        p
    }
}

/// Position of the last dot of a file name; 0 when there is none.
pub open spec fn last_dot(name: Seq<char>, n: int) -> int
    decreases n,
{
    if n <= 0 {
        0
    } else if name[n - 1] == '.' {
        n - 1
    } else {
        last_dot(name, n - 1)
    }
}

/// A file name without its extension.
pub open spec fn stem(name: Seq<char>) -> Seq<char> {
    let d = last_dot(name, name.len() as int);
    if d == 0 {
        name
    } else {
        name.take(d)
    }
}

/// The extension of a file name: what follows its last dot, unless that dot
/// is the first character.
pub open spec fn extension(name: Seq<char>) -> Option<Seq<char>> {
    let d = last_dot(name, name.len() as int);
    if d == 0 {
        None
    } else {
        Some(name.skip(d + 1))
    }
}

fn find_last_dot(v: &Vec<char>) -> (d: usize)
    ensures
        d == last_dot(v@, v@.len() as int),
        v@.len() > 0 ==> d < v@.len(),
        v@.len() == 0 ==> d == 0,
{
    let mut n: usize = v.len();
    while n > 0
        invariant
            n <= v@.len(),
            last_dot(v@, v@.len() as int) == last_dot(v@, n as int),
        decreases n,
    {
        if v[n - 1] == '.' {
            return n - 1;
        }
        n = n - 1;
    }
    0
}

/// The part of a file name before its extension.
pub fn file_stem(name: &str) -> (r: String)
    ensures
        r@ == stem(name@),
{
    let v = text::chars_of(name);
    let d: usize = find_last_dot(&v);
    if d == 0 {
        name.to_owned()
    } else {
        text::string_of_range(&v, 0, d)
    }
}

/// The extension of a file name, without the dot.
pub fn file_extension(name: &str) -> (r: Option<String>)
    ensures
        extension(name@) is None ==> r is None,
        extension(name@) is Some ==> r is Some && r->0@ == extension(name@)->0,
{
    let v = text::chars_of(name);
    let d: usize = find_last_dot(&v);
    if d == 0 {
        None
    } else {
        let n: usize = v.len();
        Some(text::string_of_range(&v, d + 1, n))
    }
}

impl FilePath {
    /// Reads a path whose components are separated by `/`.
    pub fn parse(s: &str) -> (p: FilePath)
        ensures
            p@ == parsed(s@),
    {
        let ps = text::split(s, '/');
        let first = text::chars_of(s);
        let absolute = first.len() > 0 && first[0] == '/';
        let mut parts: Vec<String> = Vec::new();
        let mut i: usize = 0;
        while i < ps.len()
            invariant
                i <= ps@.len(),
                text::views(ps@) == text::pieces(s@, '/'),
                text::views(parts@) == components(text::pieces(s@, '/'), !absolute, i as int),
            decreases ps@.len() - i,
        {
            let ghost kept = text::views(parts@);
            let piece = text::chars_of(ps[i].as_str());
            let dot = piece.len() == 1 && piece[0] == '.';
            proof {
                assert(piece@ == text::views(ps@)[i as int]);
                assert(dot == (piece@ == seq!['.'])) by {
                    if dot {
                        assert(piece@ =~= seq!['.']);
                    }
                }
            }
            if piece.len() > 0 && (!dot || (!absolute && i == 0)) {
                parts.push(ps[i].clone());
                proof {
                    assert(text::views(parts@) =~= kept.push(piece@));
                }
            }
            i = i + 1;
        }
        let mut root = String::new();
        if absolute {
            root.push('/');
        }
        let p = FilePath { root, parts };
        proof {
            assert(text::views(ps@).len() == ps@.len());
            assert(p@.root =~= parsed(s@).root);
        }
        p
    }

    /// The path as shown to the user.
    pub fn display(&self) -> (s: String)
        ensures
            s@ == self@.shown(),
    {
        let r = text::chars_of(self.root.as_str());
        let at: usize = text::find_char(&r, '\\', 0);
        let sep = if at < r.len() {
            '\\'
        } else {
            '/'
        };
        proof {
            if at < r@.len() {
                assert(r@[at as int] == '\\');
            }
            assert(sep == separator(self.root@));
        }
        let mut s = self.root.clone();
        s.append(text::join(&self.parts, sep).as_str());
        s
    }

    /// The path without its last component; `None` for a root or an empty path.
    pub fn parent(&self) -> (r: Option<FilePath>)
        ensures
            self@.parent() is None ==> r is None,
            self@.parent() is Some ==> r is Some && r->0@ == self@.parent()->0,
    {
        if self.parts.len() == 0 {
            return None;
        }
        let mut p = self.clone();
        p.parts.pop();
        proof {
            assert(text::views(p.parts@) =~= text::views(self.parts@).drop_last());
        }
        Some(p)
    }

    /// The last component, unless it is `.` or `..`.
    pub fn file_name(&self) -> (r: Option<String>)
        ensures
            self@.file_name() is None ==> r is None,
            self@.file_name() is Some ==> r is Some && r->0@ == self@.file_name()->0,
    {
        if self.parts.len() == 0 {
            return None;
        }
        let name = self.parts[self.parts.len() - 1].clone();
        proof {
            assert(name@ == self@.parts.last());
            reveal_strlit(".");
            reveal_strlit("..");
            assert("."@ =~= seq!['.']);
            assert(".."@ =~= seq!['.', '.']);
        }
        if text::same_text(name.as_str(), ".") || text::same_text(name.as_str(), "..") {
            None
        } else {
            Some(name)
        }
    }

    /// `rest` taken from this path; an absolute `rest` stands for itself.
    pub fn join(&self, rest: &FilePath) -> (r: FilePath)
        ensures
            r@ == self@.joined(rest@),
    {
        if rest.root.as_str().is_empty() {
            let mut r = self.clone();
            let mut i: usize = 0;
            while i < rest.parts.len()
                invariant
                    i <= rest.parts@.len(),
                    r.root@ == self.root@,
                    r@.parts == self@.parts + rest@.parts.take(i as int),
                decreases rest.parts@.len() - i,
            {
                let ghost before = r@.parts;
                r.parts.push(rest.parts[i].clone());
                i = i + 1;
                proof {
                    assert(r@.parts =~= before.push(rest@.parts[i - 1]));
                    assert(r@.parts =~= self@.parts + rest@.parts.take(i as int));
                }
            }
            proof {
                assert(rest@.parts.take(i as int) =~= rest@.parts);
            }
            r
        } else {
            rest.clone()
        }
    }

    /// The path that the text `rest` names when taken from this path.
    pub fn join_text(&self, rest: &str) -> (r: FilePath)
        ensures
            r@ == self@.joined(parsed(rest@)),
    {
        let tail = FilePath::parse(rest);
        self.join(&tail)
    }

    /// This path with one more component.
    pub fn child(&self, name: &str) -> (r: FilePath)
        ensures
            r@ == self@.child(name@),
    {
        let mut r = self.clone();
        r.parts.push(name.to_owned());
        proof {
            assert(r@.parts =~= self@.parts.push(name@));
        }
        r
    }

    /// Whether two paths are the same.
    pub fn same(&self, other: &FilePath) -> (r: bool)
        ensures
            r == (self@ == other@),
    {
        let r = self.root == other.root && text::same_strings(&self.parts, &other.parts);
        proof {
            if r {
                assert(self@ =~= other@);
            }
        }
        r
    }

    /// Whether this path is `base` or lies below it.
    pub fn starts_with(&self, base: &FilePath) -> (r: bool)
        ensures
            r == self@.under(base@),
    {
        if self.root != base.root || self.parts.len() < base.parts.len() {
            return false;
        }
        let mut i: usize = 0;
        while i < base.parts.len()
            invariant
                i <= base.parts@.len() <= self.parts@.len(),
                forall|j: int| 0 <= j < i ==> self.parts@[j]@ == base.parts@[j]@,
            decreases base.parts@.len() - i,
        {
            if self.parts[i] != base.parts[i] {
                proof {
                    assert(self@.parts.take(base@.parts.len() as int)[i as int]
                        != base@.parts[i as int]);
                }
                return false;
            }
            i = i + 1;
        }
        proof {
            assert(self@.parts.take(base@.parts.len() as int) =~= base@.parts);
        }
        true
    }

    /// What follows `base` in this path, when it lies below `base`.
    pub fn strip_prefix(&self, base: &FilePath) -> (r: Option<FilePath>)
        ensures
            r is Some == self@.under(base@),
            r is Some ==> r->0@ == (PathView {
                root: Seq::empty(),
                parts: self@.parts.skip(base@.parts.len() as int),
            }),
    {
        if !self.starts_with(base) {
            return None;
        }
        let mut parts: Vec<String> = Vec::new();
        let mut i: usize = base.parts.len();
        while i < self.parts.len()
            invariant
                base.parts@.len() <= i <= self.parts@.len(),
                text::views(parts@) == self@.parts.subrange(base.parts@.len() as int, i as int),
            decreases self.parts@.len() - i,
        {
            let ghost before = text::views(parts@);
            parts.push(self.parts[i].clone());
            i = i + 1;
            proof {
                assert(text::views(parts@) =~= before.push(self@.parts[i - 1]));
                assert(text::views(parts@) =~= self@.parts.subrange(
                    base.parts@.len() as int,
                    i as int,
                ));
            }
        }
        let r = FilePath { root: String::new(), parts };
        proof {
            assert(r@.root =~= Seq::<char>::empty());
            assert(r@.parts =~= self@.parts.skip(base@.parts.len() as int));
        }
        Some(r)
    }
}

/// Taking a path below `base` apart and putting it together again gives the
/// same path back.
pub proof fn law_strip_then_join(p: PathView, base: PathView)
    requires
        p.under(base),
    ensures
        base.joined(
            PathView { root: Seq::empty(), parts: p.parts.skip(base.parts.len() as int) },
        ) == p,
{
    assert(base.parts + p.parts.skip(base.parts.len() as int) =~= p.parts);
}

pub proof fn lemma_last_dot(name: Seq<char>, n: int)
    requires
        0 <= n <= name.len(),
    ensures
        0 <= last_dot(name, n) <= n,
        n > 0 ==> last_dot(name, n) < n,
        forall|i: int| last_dot(name, n) < i < n ==> #[trigger] name[i] != '.',
        last_dot(name, n) > 0 ==> name[last_dot(name, n)] == '.',
    decreases n,
{
    if n > 0 && name[n - 1] != '.' {
        lemma_last_dot(name, n - 1);
    }
}

/// A file name is its stem, a dot and its extension, which holds no dot; a name
/// without an extension is all stem, and has no dot but perhaps the first
/// character.
pub proof fn law_name_is_stem_and_extension(name: &str, s: String, e: Option<String>)
    requires
        call_ensures(file_stem, (name,), s),
        call_ensures(file_extension, (name,), e),
    ensures
        e is Some ==> name@ == s@ + seq!['.'] + e->0@ && s@.len() > 0 && !e->0@.contains('.'),
        e is None ==> s@ == name@ && forall|i: int| 0 < i < name@.len() ==> #[trigger] name@[i] != '.',
{
    let d = last_dot(name@, name@.len() as int);
    lemma_last_dot(name@, name@.len() as int);
    if d > 0 {
        assert(name@ =~= name@.take(d) + seq!['.'] + name@.skip(d + 1));
        let tail = name@.skip(d + 1);
        assert forall|i: int| 0 <= i < tail.len() implies #[trigger] tail[i] != '.' by {
            assert(name@[d + 1 + i] != '.');
        }
    }
}

/// What lies in a folder has that folder above it and its own name; going up
/// and down again leads back.
pub proof fn law_up_and_down(
    p: &FilePath,
    name: &str,
    c: FilePath,
    up: Option<FilePath>,
    n: Option<String>,
)
    requires
        call_ensures(FilePath::child, (p, name), c),
        call_ensures(FilePath::parent, (&c,), up),
        call_ensures(FilePath::file_name, (&c,), n),
        name@ != seq!['.'],
        name@ != seq!['.', '.'],
    ensures
        up is Some,
        up->0@ == p@,
        n is Some,
        n->0@ == name@,
        c@.parts.len() == p@.parts.len() + 1,
        c@.root == p@.root,
{
    assert(c@.parts.drop_last() =~= p@.parts);
}

/// A path taken from a folder and put behind that folder again is the path, and
/// it lies in the folder; a path that does not start with the folder is not
/// taken from it.
pub proof fn law_take_off_and_put_back(
    p: &FilePath,
    base: &FilePath,
    rel: Option<FilePath>,
    below: bool,
    back: FilePath,
)
    requires
        call_ensures(FilePath::strip_prefix, (p, base), rel),
        call_ensures(FilePath::starts_with, (p, base), below),
        rel is Some ==> call_ensures(FilePath::join, (base, &rel->0), back),
    ensures
        rel is Some == below,
        below == (p@.root == base@.root && base@.parts.is_prefix_of(p@.parts)),
        rel is Some ==> rel->0@.root.len() == 0 && p@.parts == base@.parts + rel->0@.parts,
        rel is Some ==> back@ == p@,
{
    let n = base@.parts.len() as int;
    if n <= p@.parts.len() {
        assert(p@.parts.take(n) =~= p@.parts.subrange(0, n));
    }
    if below {
        assert(p@.parts =~= base@.parts + p@.parts.skip(n));
        assert(back@ =~= p@);
    }
}

proof fn lemma_components_are_parts(ps: Seq<Seq<char>>, relative: bool, n: int)
    requires
        0 <= n <= ps.len(),
        forall|i: int|
            0 <= i < ps.len() ==> (#[trigger] ps[i]).len() > 0 && ps[i] != seq!['.'],
    ensures
        components(ps, relative, n) == ps.take(n),
    decreases n,
{
    if n > 0 {
        lemma_components_are_parts(ps, relative, n - 1);
        assert(counts(ps[n - 1], relative && n == 1));
        assert(ps.take(n) =~= ps.take(n - 1).push(ps[n - 1]));
    } else {
        assert(ps.take(0) =~= Seq::<Seq<char>>::empty());
    }
}

/// A single component that names something is read as just that.
pub proof fn lemma_one_component(name: Seq<char>)
    requires
        name.len() > 0,
        name != seq!['.'],
        !name.contains('/'),
    ensures
        parsed(name) == (PathView { root: Seq::empty(), parts: seq![name] }),
{
    text::lemma_one_piece(name, '/');
    assert(name.contains(name[0]));
    lemma_components_are_parts(seq![name], true, 1);
    assert(seq![name].take(1) =~= seq![name]);
}

/// A relative path that is shown and read again is the same path: no component
/// is lost, added or cut in two.
pub proof fn law_shown_paths_read_back(p: &FilePath, shown: String, again: &str, back: FilePath)
    requires
        call_ensures(FilePath::display, (p,), shown),
        again@ == shown@,
        call_ensures(FilePath::parse, (again,), back),
        p@.root.len() == 0,
        p@.parts.len() > 0,
        forall|i: int|
            0 <= i < p@.parts.len() ==> (#[trigger] p@.parts[i]).len() > 0 && p@.parts[i]
                != seq!['.'] && !p@.parts[i].contains('/'),
    ensures
        back@ == p@,
{
    let ps = p@.parts;
    assert(p@.root =~= Seq::<char>::empty());
    assert(shown@ =~= text::joined(ps, '/'));
    text::law_split_undoes_join(ps, '/');
    lemma_components_are_parts(ps, true, ps.len() as int);
    assert(ps.take(ps.len() as int) =~= ps);
    lemma_join_start(ps);
    assert(back@ =~= p@);
}

proof fn lemma_join_start(ps: Seq<Seq<char>>)
    requires
        ps.len() > 0,
        ps[0].len() > 0,
        !ps[0].contains('/'),
    ensures
        text::joined(ps, '/').len() > 0,
        text::joined(ps, '/')[0] == ps[0][0],
        ps[0][0] != '/',
    decreases ps.len(),
{
    assert(ps[0].contains(ps[0][0]));
    if ps.len() > 1 {
        lemma_join_start(ps.drop_last());
    }
}

} // verus!
