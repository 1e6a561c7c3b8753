//! Typed path wrappers.
//!
//! A path is text with components between slashes. Encoding absoluteness in the type keeps
//! a relative path from being used where a workspace-absolute one was meant.

use vstd::prelude::*;
use crate::text;
use crate::text::{joined, split_on, texts};

verus! {

/// Why a path was rejected.
#[derive(Debug, PartialEq, Eq)]
pub enum PathError {
    /// The path is not UTF-8; it is held as it is shown.
    NotUtf8(String),
    NotAbsolute(String),
    NotRelative(String),
    NotContained { root: String, child: String },
}

/// What a [`PathError`] says.
pub enum PathErrorView {
    NotUtf8(Seq<char>),
    NotAbsolute(Seq<char>),
    NotRelative(Seq<char>),
    NotContained { root: Seq<char>, child: Seq<char> },
}

impl View for PathError {
    type V = PathErrorView;

    open spec fn view(&self) -> PathErrorView {
        match self {
            PathError::NotUtf8(path) => PathErrorView::NotUtf8(path@),
            PathError::NotAbsolute(path) => PathErrorView::NotAbsolute(path@),
            PathError::NotRelative(path) => PathErrorView::NotRelative(path@),
            PathError::NotContained { root, child } => PathErrorView::NotContained {
                root: root@,
                child: child@,
            },
        }
    }
}

/// The sentence that a path error is shown as.
pub open spec fn path_error_message(error: PathErrorView) -> Seq<char> {
    match error {
        PathErrorView::NotUtf8(path) => "path is not valid UTF-8: "@ + path,
        PathErrorView::NotAbsolute(path) => "expected an absolute path, got "@ + path,
        PathErrorView::NotRelative(path) => "expected a relative path, got "@ + path,
        PathErrorView::NotContained { root, child } => child + " is not contained under "@ + root,
    }
}

impl PathError {
    /// The sentence that this error is shown as.
    pub fn message(&self) -> (r: String)
        ensures
            r@ == path_error_message(self@),
    {
        match self {
            PathError::NotUtf8(path) => text::concat("path is not valid UTF-8: ", path.as_str()),
            PathError::NotAbsolute(path) => text::concat(
                "expected an absolute path, got ",
                path.as_str(),
            ),
            PathError::NotRelative(path) => text::concat(
                "expected a relative path, got ",
                path.as_str(),
            ),
            PathError::NotContained { root, child } => text::concat3(
                child.as_str(),
                " is not contained under ",
                root.as_str(),
            ),
        }
    }
}

/// Whether a path starts at the root.
pub open spec fn is_absolute(path: Seq<char>) -> bool {
    path.len() > 0 && path[0] == '/'
}

/// Whether a piece between slashes names a component: an empty piece and `.` do not.
pub open spec fn names_component(piece: Seq<char>) -> bool {
    piece.len() > 0 && piece != seq!['.']
}

/// The pieces that name a component, in order.
pub open spec fn named(pieces: Seq<Seq<char>>) -> Seq<Seq<char>>
    decreases pieces.len(),
{
    if pieces.len() == 0 {
        Seq::empty()
    } else if names_component(pieces.last()) {
        named(pieces.drop_last()).push(pieces.last())
    } else {
        named(pieces.drop_last())
    }
}

/// The components of a path: the root as `/`, a leading `.` of a relative path, and every
/// piece that names one.
pub open spec fn components_of(path: Seq<char>) -> Seq<Seq<char>> {
    let pieces = split_on(path, '/');
    if is_absolute(path) {
        seq![seq!['/']] + named(pieces)
    } else if pieces[0] == seq!['.'] {
        seq![seq!['.']] + named(pieces)
    } else {
        named(pieces)
    }
}

/// Whether some components begin with others.
pub open spec fn begins_with(all: Seq<Seq<char>>, base: Seq<Seq<char>>) -> bool {
    base.len() <= all.len() && all.take(base.len() as int) == base
}

/// Whether `path` is `root` or lies beneath it: it begins with the components of `root`, and what
/// follows those does not lead out again.
pub open spec fn contained(path: Seq<char>, root: Seq<char>) -> bool {
    begins_with(components_of(path), components_of(root)) && begins_with(
        folded(components_of(path), false),
        folded(components_of(root), false),
    )
}

/// Whether a path holds a `..`.
pub open spec fn climbs(path: Seq<char>) -> bool {
    components_of(path).contains(seq!['.', '.'])
}

/// `rel` appended to `base`; an absolute `rel` replaces it.
pub open spec fn path_joined(base: Seq<char>, rel: Seq<char>) -> Seq<char> {
    if is_absolute(rel) {
        rel
    } else if base.len() > 0 && base.last() != '/' {
        base.push('/') + rel
    } else {
        base + rel
    }
}

/// The pieces that are left behind the first `n` that name a component.
pub open spec fn behind(pieces: Seq<Seq<char>>, n: int) -> Seq<Seq<char>>
    decreases pieces.len(),
{
    if pieces.len() == 0 || n <= 0 {
        pieces
    } else {
        behind(
            pieces.drop_first(),
            if names_component(pieces[0]) {
                n - 1
            } else {
                n
            },
        )
    }
}

/// The pieces without those at the front that name no component.
pub open spec fn front_trimmed(pieces: Seq<Seq<char>>) -> Seq<Seq<char>>
    decreases pieces.len(),
{
    if pieces.len() > 0 && !names_component(pieces[0]) {
        front_trimmed(pieces.drop_first())
    } else {
        pieces
    }
}

/// The pieces without those at the back that name no component.
pub open spec fn back_trimmed(pieces: Seq<Seq<char>>) -> Seq<Seq<char>>
    decreases pieces.len(),
{
    if pieces.len() > 0 && !names_component(pieces.last()) {
        back_trimmed(pieces.drop_last())
    } else {
        pieces
    }
}

/// The text of the pieces from the first that names a component to the last that does.
pub open spec fn path_of(pieces: Seq<Seq<char>>) -> Seq<char> {
    joined(back_trimmed(front_trimmed(pieces)), seq!['/'])
}

/// What an absolute path reads as below an absolute `root` that it lies under: as it is spelled
/// behind as many components as `root` has.
pub open spec fn below(path: Seq<char>, root: Seq<char>) -> Seq<char> {
    path_of(behind(split_on(path, '/'), components_of(root).len() - 1))
}

/// Whether a piece names a component.
fn piece_names_component(piece: &str) -> (r: bool)
    ensures
        r == names_component(piece@),
{
    proof {
        reveal_strlit(".");
        assert("."@ =~= seq!['.']);
    }
    piece.unicode_len() > 0 && !text::eq(piece, ".")
}

/// Whether a path starts at the root.
pub fn starts_at_root(path: &str) -> (r: bool)
    ensures
        r == is_absolute(path@),
{
    path.unicode_len() > 0 && path.get_char(0) == '/'
}

/// The components of a path.
pub fn components(path: &str) -> (r: Vec<String>)
    ensures
        texts(r@) == components_of(path@),
{
    let pieces = text::split(path, '/');
    let ghost all = texts(pieces@);
    proof {
        text::lemma_split_nonempty(path@, '/');
        reveal_strlit("/");
        reveal_strlit(".");
        assert("/"@ =~= seq!['/']);
        assert("."@ =~= seq!['.']);
        assert(pieces@[0]@ == all[0]);
    }
    let mut r: Vec<String> = Vec::new();
    if starts_at_root(path) {
        r.push(text::copy("/"));
    } else if text::eq(pieces[0].as_str(), ".") {
        r.push(text::copy("."));
    }
    let ghost head = texts(r@);
    assert(is_absolute(path@) ==> head =~= seq![seq!['/']]);
    assert(!is_absolute(path@) && all[0] == seq!['.'] ==> head =~= seq![seq!['.']]);
    let mut i: usize = 0;
    assert(head =~= head + named(all.take(0)));
    while i < pieces.len()
        invariant
            i <= pieces.len(),
            all == texts(pieces@),
            texts(r@) == head + named(all.take(i as int)),
        decreases pieces.len() - i,
    {
        let ghost done = texts(r@);
        assert(all.take(i as int + 1).drop_last() =~= all.take(i as int));
        assert(all[i as int] == pieces@[i as int]@);
        if piece_names_component(pieces[i].as_str()) {
            r.push(pieces[i].clone());
            assert(texts(r@) =~= done.push(all[i as int]));
            assert(texts(r@) =~= head + named(all.take(i as int + 1)));
        }
        i += 1;
    }
    assert(all.take(i as int) =~= all);
    assert(texts(r@) =~= components_of(path@));
    r
}

/// Whether `path` is `root` or lies beneath it.
pub fn lies_under(path: &str, root: &str) -> (r: bool)
    ensures
        r == contained(path@, root@),
{
    let all = components(path);
    let base = components(root);
    starts_with_all(&all, &base) && starts_with_all(&fold(&all, false), &fold(&base, false))
}

/// Whether some components begin with others.
fn starts_with_all(all: &Vec<String>, base: &Vec<String>) -> (r: bool)
    ensures
        r == begins_with(texts(all@), texts(base@)),
{
    if base.len() > all.len() {
        return false;
    }
    let mut i: usize = 0;
    while i < base.len()
        invariant
            i <= base.len() <= all.len(),
            forall|j: int| 0 <= j < i ==> texts(all@)[j] == #[trigger] texts(base@)[j],
        decreases base.len() - i,
    {
        assert(texts(all@)[i as int] == all@[i as int]@);
        assert(texts(base@)[i as int] == base@[i as int]@);
        if !text::eq(all[i].as_str(), base[i].as_str()) {
            assert(texts(all@).take(base.len() as int)[i as int] != texts(base@)[i as int]);
            return false;
        }
        i += 1;
    }
    assert(texts(all@).take(base.len() as int) =~= texts(base@));
    true
}

/// `rel` appended to `base`, as `Path::join` does.
pub fn join_paths(base: &str, rel: &str) -> (r: String)
    ensures
        r@ == path_joined(base@, rel@),
{
    if starts_at_root(rel) {
        return text::copy(rel);
    }
    let n: usize = base.unicode_len();
    if n > 0 && base.get_char(n - 1) != '/' {
        let mut r = text::copy(base);
        r.push('/');
        r.append(rel);
        r
    } else {
        text::concat(base, rel)
    }
}

/// The text of the pieces from the first behind `skip` components to the last that names
/// one.
fn rest_of(pieces: &Vec<String>, skip: usize) -> (r: String)
    ensures
        r@ == path_of(behind(texts(pieces@), skip as int)),
{
    let ghost all = texts(pieces@);
    let ghost rest = behind(all, skip as int);
    let mut i: usize = 0;
    let mut left: usize = skip;
    assert(all.skip(0) =~= all);
    while i < pieces.len() && left > 0
        invariant
            i <= pieces.len(),
            all == texts(pieces@),
            rest == behind(all.skip(i as int), left as int),
        decreases pieces.len() - i,
    {
        assert(all.skip(i as int)[0] == pieces@[i as int]@);
        assert(all.skip(i as int).drop_first() =~= all.skip(i as int + 1));
        if piece_names_component(pieces[i].as_str()) {
            left -= 1;
        }
        i += 1;
    }
    assert(rest =~= all.skip(i as int));
    let ghost front = front_trimmed(rest);
    while i < pieces.len() && !piece_names_component(pieces[i].as_str())
        invariant
            i <= pieces.len(),
            all == texts(pieces@),
            front == front_trimmed(all.skip(i as int)),
        decreases pieces.len() - i,
    {
        assert(all.skip(i as int)[0] == pieces@[i as int]@);
        assert(all.skip(i as int).drop_first() =~= all.skip(i as int + 1));
        i += 1;
    }
    assert(i < pieces.len() ==> all.skip(i as int)[0] == pieces@[i as int]@);
    assert(front == all.skip(i as int));
    let ghost whole = back_trimmed(front);
    let mut j: usize = pieces.len();
    assert(all.skip(i as int) =~= all.subrange(i as int, j as int));
    while j > i && !piece_names_component(pieces[j - 1].as_str())
        invariant
            i <= j <= pieces.len(),
            all == texts(pieces@),
            whole == back_trimmed(all.subrange(i as int, j as int)),
        decreases j,
    {
        assert(all.subrange(i as int, j as int).last() == pieces@[j - 1]@);
        assert(all.subrange(i as int, j as int).drop_last() =~= all.subrange(
            i as int,
            j as int - 1,
        ));
        j -= 1;
    }
    assert(j > i ==> all.subrange(i as int, j as int).last() == pieces@[j - 1]@);
    assert(whole == all.subrange(i as int, j as int));
    let mut kept: Vec<String> = Vec::new();
    let mut k: usize = i;
    assert(texts(kept@) =~= all.subrange(i as int, i as int));
    while k < j
        invariant
            i <= k <= j <= pieces.len(),
            all == texts(pieces@),
            texts(kept@) == all.subrange(i as int, k as int),
        decreases j - k,
    {
        let ghost done = texts(kept@);
        kept.push(pieces[k].clone());
        assert(texts(kept@) =~= done.push(all[k as int]));
        assert(all.subrange(i as int, k as int + 1) =~= done.push(all[k as int]));
        k += 1;
    }
    proof {
        reveal_strlit("/");
        assert("/"@ =~= seq!['/']);
    }
    text::join(&kept, "/")
}

/// What an absolute path reads as below an absolute `root` that it lies under.
fn strip(path: &str, root: &str) -> (r: String)
    requires
        is_absolute(root@),
    ensures
        r@ == below(path@, root@),
{
    let base = components(root);
    assert(base.len() == texts(base@).len());
    rest_of(&text::split(path, '/'), base.len() - 1)
}

/// An absolute, UTF-8 filesystem path.
///
/// Absoluteness is checked once at construction, so downstream code may join and compare
/// without re-validating.
#[derive(Debug, PartialEq, Eq, Hash, PartialOrd, Ord)]
pub struct AbsPath(String);

impl View for AbsPath {
    type V = Seq<char>;

    closed spec fn view(&self) -> Seq<char> {
        self.0@
    }
}

impl Clone for AbsPath {
    fn clone(&self) -> (r: Self)
        ensures
            r@ == self@,
    {
        proof {
            use_type_invariant(self);
        }
        AbsPath(self.0.clone())
    }
}

impl AbsPath {
    #[verifier::type_invariant]
    closed spec fn starts_at_root(self) -> bool {
        is_absolute(self.0@)
    }

    /// Wraps `path`, rejecting relative input.
    pub fn new(path: &str) -> (r: Result<AbsPath, PathError>)
        ensures
            match r {
                Ok(abs) => is_absolute(path@) && abs@ == path@,
                Err(error) => !is_absolute(path@) && error@ == PathErrorView::NotAbsolute(path@),
            },
    {
        if starts_at_root(path) {
            Ok(AbsPath(text::copy(path)))
        } else {
            Err(PathError::NotAbsolute(text::copy(path)))
        }
    }

    /// The path as text.
    pub fn as_str(&self) -> (r: &str)
        ensures
            r@ == self@,
            is_absolute(self@),
    {
        proof {
            use_type_invariant(self);
        }
        self.0.as_str()
    }

    /// Appends a relative path, keeping the result absolute by construction.
    pub fn join(&self, rel: &RelPath) -> (r: Result<AbsPath, PathError>)
        ensures
            r is Ok,
            r->Ok_0@ == path_joined(self@, rel@),
    {
        proof {
            use_type_invariant(self);
        }
        let text = join_paths(self.as_str(), rel.as_str());
        assert(text@[0] == '/');
        AbsPath::new(text.as_str())
    }

    /// This path expressed relative to `root`, or an error when it lies outside.
    ///
    /// Callers use this to enforce containment, so escaping the root is an error rather than
    /// a silently clamped path, however the path that escapes is spelled.
    pub fn strip_root(&self, root: &AbsPath) -> (r: Result<RelPath, PathError>)
        ensures
            match r {
                Ok(rel) => contained(self@, root@) && rel@ == below(self@, root@),
                Err(error) => !contained(self@, root@) && error@ == (PathErrorView::NotContained {
                    root: root@,
                    child: self@,
                }),
            },
    {
        if !self.is_contained_in(root) {
            return Err(
                PathError::NotContained {
                    root: text::copy(root.as_str()),
                    child: text::copy(self.as_str()),
                },
            );
        }
        proof {
            use_type_invariant(self);
            use_type_invariant(root);
            lemma_below_is_relative(self@, root@);
        }
        let rest = strip(self.as_str(), root.as_str());
        RelPath::new(rest.as_str())
    }

    /// Whether this path is `root` or lies beneath it.
    pub fn is_contained_in(&self, root: &AbsPath) -> (r: bool)
        ensures
            r == contained(self@, root@),
    {
        lies_under(self.as_str(), root.as_str())
    }

    /// Whether two paths are spelled the same.
    pub fn same(&self, other: &AbsPath) -> (r: bool)
        ensures
            r == (self@ == other@),
    {
        text::eq(self.as_str(), other.as_str())
    }
}

/// A relative, UTF-8 filesystem path.
#[derive(Debug, PartialEq, Eq, Hash, PartialOrd, Ord)]
pub struct RelPath(String);

impl View for RelPath {
    type V = Seq<char>;

    closed spec fn view(&self) -> Seq<char> {
        self.0@
    }
}

impl Clone for RelPath {
    fn clone(&self) -> (r: Self)
        ensures
            r@ == self@,
    {
        proof {
            use_type_invariant(self);
        }
        RelPath(self.0.clone())
    }
}

impl RelPath {
    #[verifier::type_invariant]
    closed spec fn starts_elsewhere(self) -> bool {
        !is_absolute(self.0@)
    }

    /// Wraps `path`, rejecting absolute input.
    pub fn new(path: &str) -> (r: Result<RelPath, PathError>)
        ensures
            match r {
                Ok(rel) => !is_absolute(path@) && rel@ == path@,
                Err(error) => is_absolute(path@) && error@ == PathErrorView::NotRelative(path@),
            },
    {
        if starts_at_root(path) {
            Err(PathError::NotRelative(text::copy(path)))
        } else {
            Ok(RelPath(text::copy(path)))
        }
    }

    /// The path as text.
    pub fn as_str(&self) -> (r: &str)
        ensures
            r@ == self@,
            !is_absolute(self@),
    {
        proof {
            use_type_invariant(self);
        }
        self.0.as_str()
    }
}

/// A piece between slashes holds none.
pub(crate) proof fn lemma_pieces_hold_no_slash(path: Seq<char>)
    ensures
        forall|i: int|
            0 <= i < split_on(path, '/').len() ==> !(#[trigger] split_on(path, '/')[i]).contains(
                '/',
            ),
{
    text::pieces_hold_no_separator(path, '/');
}

/// What is left behind some components are pieces of the path.
proof fn lemma_behind(pieces: Seq<Seq<char>>, n: int)
    ensures
        exists|k: int| 0 <= k <= pieces.len() && behind(pieces, n) == #[trigger] pieces.skip(k),
    decreases pieces.len(),
{
    if pieces.len() == 0 || n <= 0 {
        assert(pieces =~= pieces.skip(0));
    } else {
        let m = if names_component(pieces[0]) {
            n - 1
        } else {
            n
        };
        lemma_behind(pieces.drop_first(), m);
        let k = choose|k: int|
            0 <= k <= pieces.drop_first().len() && behind(pieces.drop_first(), m)
                == #[trigger] pieces.drop_first().skip(k);
        assert(pieces.drop_first().skip(k) =~= pieces.skip(k + 1));
    }
}

proof fn lemma_front_trimmed(pieces: Seq<Seq<char>>)
    ensures
        exists|k: int|
            0 <= k <= pieces.len() && front_trimmed(pieces) == #[trigger] pieces.skip(k),
        front_trimmed(pieces).len() > 0 ==> names_component(front_trimmed(pieces)[0]),
    decreases pieces.len(),
{
    if pieces.len() > 0 && !names_component(pieces[0]) {
        lemma_front_trimmed(pieces.drop_first());
        let k = choose|k: int|
            0 <= k <= pieces.drop_first().len() && front_trimmed(pieces.drop_first())
                == #[trigger] pieces.drop_first().skip(k);
        assert(pieces.drop_first().skip(k) =~= pieces.skip(k + 1));
    } else {
        assert(pieces =~= pieces.skip(0));
    }
}

proof fn lemma_back_trimmed(pieces: Seq<Seq<char>>)
    requires
        pieces.len() > 0 ==> names_component(pieces[0]),
    ensures
        back_trimmed(pieces).len() <= pieces.len(),
        back_trimmed(pieces) == pieces.take(back_trimmed(pieces).len() as int),
        pieces.len() > 0 ==> back_trimmed(pieces).len() > 0,
    decreases pieces.len(),
{
    if pieces.len() > 0 && !names_component(pieces.last()) {
        lemma_back_trimmed(pieces.drop_last());
        assert(pieces.drop_last().take(back_trimmed(pieces).len() as int) =~= pieces.take(
            back_trimmed(pieces).len() as int,
        ));
    } else {
        assert(pieces =~= pieces.take(pieces.len() as int));
    }
}

/// A joined text starts with its first part.
pub(crate) proof fn lemma_joined_starts(parts: Seq<Seq<char>>, sep: Seq<char>)
    requires
        parts.len() > 0,
    ensures
        joined(parts, sep).len() >= parts[0].len(),
        joined(parts, sep).take(parts[0].len() as int) == parts[0],
    decreases parts.len(),
{
    if parts.len() > 1 {
        lemma_joined_starts(parts.drop_last(), sep);
        assert(joined(parts, sep).take(parts[0].len() as int) =~= joined(
            parts.drop_last(),
            sep,
        ).take(parts[0].len() as int));
    } else {
        assert(joined(parts, sep).take(parts[0].len() as int) =~= parts[0]);
    }
}

/// What a path reads as below a root is relative.
proof fn lemma_below_is_relative(path: Seq<char>, root: Seq<char>)
    ensures
        !is_absolute(below(path, root)),
{
    let pieces = split_on(path, '/');
    let n = components_of(root).len() - 1;
    lemma_pieces_hold_no_slash(path);
    lemma_behind(pieces, n);
    let rest = behind(pieces, n);
    lemma_front_trimmed(rest);
    let front = front_trimmed(rest);
    lemma_back_trimmed(front);
    let kept = back_trimmed(front);
    if kept.len() > 0 {
        lemma_joined_starts(kept, seq!['/']);
        assert(kept[0] == front[0]);
        let k1 = choose|k: int| 0 <= k <= pieces.len() && rest == #[trigger] pieces.skip(k);
        let k2 = choose|k: int| 0 <= k <= rest.len() && front == #[trigger] rest.skip(k);
        assert(front[0] == pieces[k1 + k2]);
        assert(joined(kept, seq!['/'])[0] == kept[0][0]) by {
            assert(joined(kept, seq!['/']).take(kept[0].len() as int)[0] == kept[0][0]);
        }
        assert(kept[0].contains(kept[0][0]));
    }
}

/// Splitting distributes over a separator between two texts.
pub(crate) proof fn lemma_split_across(a: Seq<char>, b: Seq<char>, c: char)
    ensures
        split_on(a.push(c) + b, c) == split_on(a, c) + split_on(b, c),
    decreases b.len(),
{
    let whole = a.push(c) + b;
    text::lemma_split_nonempty(b, c);
    if b.len() == 0 {
        assert(whole =~= a.push(c));
        assert(whole.drop_last() =~= a);
        assert(split_on(whole, c) =~= split_on(a, c) + split_on(b, c));
    } else {
        let init = b.drop_last();
        lemma_split_across(a, init, c);
        text::lemma_split_nonempty(init, c);
        assert(whole.drop_last() =~= a.push(c) + init);
        assert(whole.last() == b.last());
        let before = split_on(a, c) + split_on(init, c);
        assert(before.last() == split_on(init, c).last());
        assert(before.drop_last() =~= split_on(a, c) + split_on(init, c).drop_last());
        assert(split_on(whole, c) =~= split_on(a, c) + split_on(b, c));
    }
}

/// Joining undoes splitting.
pub(crate) proof fn lemma_join_undoes_split(s: Seq<char>, c: char)
    ensures
        joined(split_on(s, c), seq![c]) == s,
    decreases s.len(),
{
    if s.len() == 0 {
        assert(joined(split_on(s, c), seq![c]) =~= s);
    } else {
        let init = s.drop_last();
        lemma_join_undoes_split(init, c);
        text::lemma_split_nonempty(init, c);
        let before = split_on(init, c);
        let all = split_on(s, c);
        if s.last() == c {
            assert(all.drop_last() =~= before);
            assert(joined(all, seq![c]) =~= init.push(c));
        } else {
            assert(all.drop_last() =~= before.drop_last());
            assert(joined(all, seq![c]) =~= joined(before, seq![c]).push(s.last()));
        }
        assert(init.push(s.last()) =~= s);
    }
}

/// The components of a text are those of its parts.
pub(crate) proof fn lemma_named_add(a: Seq<Seq<char>>, b: Seq<Seq<char>>)
    ensures
        named(a + b) == named(a) + named(b),
    decreases b.len(),
{
    if b.len() == 0 {
        assert(a + b =~= a);
        assert(named(a) + named(b) =~= named(a));
    } else {
        lemma_named_add(a, b.drop_last());
        assert((a + b).drop_last() =~= a + b.drop_last());
        assert(named(a + b) =~= named(a) + named(b));
    }
}

/// Skipping as many components as stand before some pieces leaves those pieces.
proof fn lemma_behind_prefix(p: Seq<Seq<char>>, q: Seq<Seq<char>>)
    ensures
        front_trimmed(behind(p + q, named(p).len() as int)) == front_trimmed(q),
    decreases p.len(),
{
    if p.len() == 0 {
        assert(p + q =~= q);
    } else {
        let rest = p.drop_first();
        lemma_behind_prefix(rest, q);
        assert((p + q).drop_first() =~= rest + q);
        assert(seq![p[0]] + rest =~= p);
        lemma_named_add(seq![p[0]], rest);
        assert(seq![p[0]].drop_last() =~= Seq::<Seq<char>>::empty());
        assert(named(seq![p[0]].drop_last()) =~= Seq::<Seq<char>>::empty());
        assert(named(p).len() == named(rest).len() + (if names_component(p[0]) {
            1int
        } else {
            0int
        }));
        if named(p).len() == 0 {
            assert(behind(p + q, 0) == p + q);
            assert(behind(rest + q, 0) == rest + q);
        }
    }
}

/// How the pieces of a joined path are those of its parts.
proof fn lemma_pieces_joined(root: Seq<char>, rel: Seq<char>) -> (front: Seq<Seq<char>>)
    requires
        is_absolute(root),
        !is_absolute(rel),
    ensures
        split_on(path_joined(root, rel), '/') == front + split_on(rel, '/'),
        named(front) == named(split_on(root, '/')),
        is_absolute(path_joined(root, rel)),
{
    if root.last() != '/' {
        lemma_split_across(root, rel, '/');
        split_on(root, '/')
    } else {
        let r0 = root.drop_last();
        lemma_split_across(r0, rel, '/');
        assert(r0.push('/') =~= root);
        assert(split_on(root, '/') == split_on(r0, '/').push(Seq::empty()));
        assert(split_on(root, '/').drop_last() =~= split_on(r0, '/'));
        split_on(r0, '/')
    }
}

/// Whether a relative path is spelled without idle parts at its ends: it is empty, or its
/// first and last pieces name components.
pub open spec fn spelled_plainly(rel: Seq<char>) -> bool {
    rel.len() == 0 || (names_component(split_on(rel, '/')[0]) && names_component(
        split_on(rel, '/').last(),
    ))
}

/// What is joined below a root reads below it as it was spelled, and lies under it where it does
/// not climb.
pub proof fn join_then_strip_round_trips(root: Seq<char>, rel: Seq<char>)
    requires
        is_absolute(root),
        !is_absolute(rel),
    ensures
        !climbs(rel) ==> contained(path_joined(root, rel), root),
        below(path_joined(root, rel), root) == path_of(split_on(rel, '/')),
        spelled_plainly(rel) ==> below(path_joined(root, rel), root) == rel,
{
    let path = path_joined(root, rel);
    let front = lemma_pieces_joined(root, rel);
    let pieces = split_on(rel, '/');
    let names = named(pieces);
    lemma_named_add(front, pieces);
    lemma_joined_components(root, rel);
    assert(components_of(path).take(components_of(root).len() as int) =~= components_of(root));
    lemma_behind_prefix(front, pieces);
    text::lemma_split_nonempty(rel, '/');
    assert(below(path, root) == path_of(pieces));
    if !climbs(rel) {
        lemma_folded_add(components_of(root), names, false);
        let base = folded(components_of(root), false);
        assert((base + names).take(base.len() as int) =~= base);
    }
    if rel.len() == 0 {
        assert(pieces.drop_first() =~= Seq::<Seq<char>>::empty());
        assert(front_trimmed(pieces.drop_first()) =~= Seq::<Seq<char>>::empty());
        assert(path_of(pieces) =~= rel);
    } else if spelled_plainly(rel) {
        lemma_join_undoes_split(rel, '/');
    }
}

/// What a path reads as below a root it lies under leads from the root to that path again,
/// component by component, and so stays inside.
pub proof fn strip_then_join_round_trips(path: Seq<char>, root: Seq<char>)
    requires
        is_absolute(path),
        is_absolute(root),
        contained(path, root),
    ensures
        components_of(path_joined(root, below(path, root))) == components_of(path),
        contained(path_joined(root, below(path, root)), root),
{
    let rel = below(path, root);
    lemma_below_is_relative(path, root);
    lemma_joined_components(root, rel);
    let pieces = split_on(path, '/');
    let n = components_of(root).len() - 1;
    let rest = behind(pieces, n);
    assert(components_of(path).take(n + 1) == components_of(root));
    assert(n <= named(pieces).len());
    lemma_behind_named(pieces, n);
    lemma_path_of_named(path, rest, n);
    assert(components_of(path) =~= components_of(root) + named(pieces).skip(n)) by {
        assert(components_of(path).skip(n + 1) =~= named(pieces).skip(n));
        assert(components_of(path) =~= components_of(path).take(n + 1) + components_of(path).skip(
            n + 1,
        ));
    }
}

/// What is left behind some components has the others.
proof fn lemma_behind_named(pieces: Seq<Seq<char>>, n: int)
    requires
        0 <= n <= named(pieces).len(),
    ensures
        named(behind(pieces, n)) == named(pieces).skip(n),
    decreases pieces.len(),
{
    if pieces.len() == 0 || n <= 0 {
        assert(named(pieces).skip(0) =~= named(pieces));
    } else {
        let rest = pieces.drop_first();
        lemma_named_first(pieces);
        if names_component(pieces[0]) {
            lemma_behind_named(rest, n - 1);
            assert(named(pieces).skip(n) =~= named(rest).skip(n - 1));
        } else {
            lemma_behind_named(rest, n);
        }
    }
}

/// The first piece is the first component, where it names one.
proof fn lemma_named_first(pieces: Seq<Seq<char>>)
    requires
        pieces.len() > 0,
    ensures
        named(pieces) == if names_component(pieces[0]) {
            seq![pieces[0]] + named(pieces.drop_first())
        } else {
            named(pieces.drop_first())
        },
{
    let first = seq![pieces[0]];
    assert(first + pieces.drop_first() =~= pieces);
    lemma_named_add(first, pieces.drop_first());
    assert(first.drop_last() =~= Seq::<Seq<char>>::empty());
    assert(named(first.drop_last()) =~= Seq::<Seq<char>>::empty());
    if names_component(pieces[0]) {
        assert(named(first) =~= first);
    } else {
        assert(named(first) + named(pieces.drop_first()) =~= named(pieces.drop_first()));
    }
}

/// What names no component can be taken from the front.
proof fn lemma_front_named(pieces: Seq<Seq<char>>)
    ensures
        named(front_trimmed(pieces)) == named(pieces),
    decreases pieces.len(),
{
    if pieces.len() > 0 && !names_component(pieces[0]) {
        lemma_named_first(pieces);
        lemma_front_named(pieces.drop_first());
    }
}

/// What names no component can be taken from the back.
proof fn lemma_back_named(pieces: Seq<Seq<char>>)
    ensures
        named(back_trimmed(pieces)) == named(pieces),
    decreases pieces.len(),
{
    if pieces.len() > 0 && !names_component(pieces.last()) {
        lemma_back_named(pieces.drop_last());
    }
}

/// The text of what is left of a path has the components that are left.
proof fn lemma_path_of_named(path: Seq<char>, rest: Seq<Seq<char>>, n: int)
    requires
        rest == behind(split_on(path, '/'), n),
    ensures
        named(split_on(path_of(rest), '/')) == named(rest),
{
    let pieces = split_on(path, '/');
    lemma_pieces_hold_no_slash(path);
    lemma_behind(pieces, n);
    lemma_front_trimmed(rest);
    let front = front_trimmed(rest);
    lemma_back_trimmed(front);
    let kept = back_trimmed(front);
    lemma_front_named(rest);
    lemma_back_named(front);
    let whole = path_of(rest);
    if kept.len() > 0 {
        let k1 = choose|k: int| 0 <= k <= pieces.len() && rest == #[trigger] pieces.skip(k);
        let k2 = choose|k: int| 0 <= k <= rest.len() && front == #[trigger] rest.skip(k);
        assert forall|i: int| 0 <= i < kept.len() implies !(#[trigger] kept[i]).contains('/') by {
            assert(kept[i] == pieces[k1 + k2 + i]);
        }
        lemma_split_undoes_join(kept, '/');
    } else {
        assert(whole =~= Seq::<char>::empty());
        assert(split_on(whole, '/') =~= seq![whole]);
        lemma_named_first(seq![whole]);
        assert(seq![whole].drop_first() =~= Seq::<Seq<char>>::empty());
        assert(named(seq![whole].drop_first()) =~= Seq::<Seq<char>>::empty());
        assert(named(kept) =~= Seq::<Seq<char>>::empty());
    }
}

/// The components of a joined path are those of the root and then those of what was joined; what
/// does not climb is only names.
pub(crate) proof fn lemma_joined_components(root: Seq<char>, rel: Seq<char>)
    requires
        is_absolute(root),
        !is_absolute(rel),
    ensures
        is_absolute(path_joined(root, rel)),
        components_of(path_joined(root, rel)) == components_of(root) + named(split_on(rel, '/')),
        !climbs(rel) ==> forall|i: int|
            0 <= i < named(split_on(rel, '/')).len() ==> #[trigger] named(split_on(rel, '/'))[i]
                != seq!['.', '.'] && named(split_on(rel, '/'))[i] != seq!['.'],
{
    let front = lemma_pieces_joined(root, rel);
    let pieces = split_on(rel, '/');
    let names = named(pieces);
    lemma_named_add(front, pieces);
    assert(components_of(path_joined(root, rel)) =~= components_of(root) + names);
    lemma_named_pieces(pieces);
    if !climbs(rel) {
        assert forall|i: int| 0 <= i < names.len() implies #[trigger] names[i] != seq!['.', '.']
            && names[i] != seq!['.'] by {
            let k = if components_of(rel).len() == names.len() {
                i
            } else {
                i + 1
            };
            assert(components_of(rel)[k] == names[i]);
        }
    }
}

/// Names behind some components stay behind what those fold to.
pub(crate) proof fn lemma_folded_add(components: Seq<Seq<char>>, names: Seq<Seq<char>>, keep: bool)
    requires
        forall|i: int|
            0 <= i < names.len() ==> #[trigger] names[i] != seq!['.', '.'] && names[i] != seq!['.'],
    ensures
        folded(components + names, keep) == folded(components, keep) + names,
    decreases names.len(),
{
    if names.len() == 0 {
        assert(components + names =~= components);
        assert(folded(components, keep) + names =~= folded(components, keep));
    } else {
        let init = names.drop_last();
        assert forall|i: int| 0 <= i < init.len() implies #[trigger] init[i] != seq!['.', '.']
            && init[i] != seq!['.'] by {
            assert(init[i] == names[i]);
        }
        lemma_folded_add(components, init, keep);
        assert((components + names).drop_last() =~= components + init);
        assert(names[names.len() - 1] != seq!['.', '.']);
        assert(folded(components + names, keep) =~= folded(components, keep) + names);
    }
}

// Folding `.` and `..` away without asking the filesystem.

/// The first component of an absolute path.
pub open spec fn root_component() -> Seq<char> {
    seq!['/']
}

/// Whether the last component can be taken away: the root cannot.
pub open spec fn poppable(out: Seq<Seq<char>>) -> bool {
    out.len() > 0 && !(out.len() == 1 && out[0] == root_component())
}

/// The components with each `..` taken together with the one before it. One with nothing
/// before it stays where `keep` says so, and goes otherwise.
pub open spec fn folded(components: Seq<Seq<char>>, keep: bool) -> Seq<Seq<char>>
    decreases components.len(),
{
    if components.len() == 0 {
        Seq::empty()
    } else {
        let out = folded(components.drop_last(), keep);
        let last = components.last();
        if last == seq!['.'] {
            out
        } else if last == seq!['.', '.'] {
            if poppable(out) {
                out.drop_last()
            } else if keep {
                out.push(last)
            } else {
                out
            }
        } else {
            out.push(last)
        }
    }
}

/// The path that is spelled with these components.
pub open spec fn spelled(components: Seq<Seq<char>>) -> Seq<char> {
    if components.len() > 0 && components[0] == root_component() {
        seq!['/'] + joined(components.drop_first(), seq!['/'])
    } else {
        joined(components, seq!['/'])
    }
}

/// The path with `.` and `..` folded away by spelling alone.
pub open spec fn normalized(path: Seq<char>, keep: bool) -> Seq<char> {
    spelled(folded(components_of(path), keep))
}

/// The components with each `..` taken together with the one before it.
fn fold(all: &Vec<String>, keep: bool) -> (r: Vec<String>)
    ensures
        texts(r@) == folded(texts(all@), keep),
{
    let ghost views = texts(all@);
    let mut out: Vec<String> = Vec::new();
    let mut i: usize = 0;
    proof {
        reveal_strlit("/");
        reveal_strlit(".");
        reveal_strlit("..");
        assert("/"@ =~= seq!['/']);
        assert("."@ =~= seq!['.']);
        assert(".."@ =~= seq!['.', '.']);
        assert(texts(out@) =~= folded(views.take(0), keep));
    }
    while i < all.len()
        invariant
            i <= all.len(),
            views == texts(all@),
            texts(out@) == folded(views.take(i as int), keep),
            "/"@ == seq!['/'],
            "."@ == seq!['.'],
            ".."@ == seq!['.', '.'],
        decreases all.len() - i,
    {
        let ghost done = texts(out@);
        assert(views.take(i as int + 1).drop_last() =~= views.take(i as int));
        assert(views[i as int] == all@[i as int]@);
        assert(done.len() == out.len());
        assert(out.len() > 0 ==> done[0] == out@[0]@);
        let last = all[i].as_str();
        if text::eq(last, ".") {
        } else if text::eq(last, "..") {
            if out.len() > 0 && !(out.len() == 1 && text::eq(out[0].as_str(), "/")) {
                out.pop();
                assert(texts(out@) =~= done.drop_last());
            } else if keep {
                out.push(all[i].clone());
                assert(texts(out@) =~= done.push(last@));
            }
        } else {
            out.push(all[i].clone());
            assert(texts(out@) =~= done.push(last@));
        }
        i += 1;
    }
    assert(views.take(i as int) =~= views);
    out
}

/// The path with `.` and `..` folded away by spelling alone.
pub fn normalize(path: &str, keep: bool) -> (r: String)
    ensures
        r@ == normalized(path@, keep),
{
    let out = fold(&components(path), keep);
    spell(&out)
}

/// The path that is spelled with these components.
fn spell(components: &Vec<String>) -> (r: String)
    ensures
        r@ == spelled(texts(components@)),
{
    let ghost views = texts(components@);
    proof {
        reveal_strlit("/");
        assert("/"@ =~= seq!['/']);
        assert(components.len() > 0 ==> views[0] == components@[0]@);
    }
    if components.len() > 0 && text::eq(components[0].as_str(), "/") {
        let mut rest: Vec<String> = Vec::new();
        let mut i: usize = 1;
        assert(texts(rest@) =~= views.subrange(1, 1));
        while i < components.len()
            invariant
                1 <= i <= components.len(),
                views == texts(components@),
                texts(rest@) == views.subrange(1, i as int),
            decreases components.len() - i,
        {
            let ghost done = texts(rest@);
            rest.push(components[i].clone());
            assert(texts(rest@) =~= done.push(views[i as int]));
            assert(views.subrange(1, i as int + 1) =~= done.push(views[i as int]));
            i += 1;
        }
        assert(views.subrange(1, i as int) =~= views.drop_first());
        let tail = text::join(&rest, "/");
        text::concat("/", tail.as_str())
    } else {
        text::join(components, "/")
    }
}

/// A text without the separator is one piece.
proof fn lemma_split_single(s: Seq<char>, c: char)
    requires
        !s.contains(c),
    ensures
        split_on(s, c) == seq![s],
    decreases s.len(),
{
    if s.len() == 0 {
        assert(s =~= Seq::<char>::empty());
        assert(split_on(s, c) =~= seq![s]);
    } else {
        assert(s[s.len() - 1] != c);
        assert forall|k: int| 0 <= k < s.drop_last().len() implies s.drop_last()[k] != c by {
            assert(s.drop_last()[k] == s[k]);
            assert(s.contains(s[k]));
        }
        lemma_split_single(s.drop_last(), c);
        assert(split_on(s, c) =~= seq![s.drop_last().push(s.last())]);
        assert(s.drop_last().push(s.last()) =~= s);
    }
}

/// Splitting undoes joining, where no part holds the separator.
pub(crate) proof fn lemma_split_undoes_join(parts: Seq<Seq<char>>, c: char)
    requires
        parts.len() > 0,
        forall|i: int| 0 <= i < parts.len() ==> !(#[trigger] parts[i]).contains(c),
    ensures
        split_on(joined(parts, seq![c]), c) == parts,
    decreases parts.len(),
{
    if parts.len() == 1 {
        lemma_split_single(parts[0], c);
        assert(parts =~= seq![parts[0]]);
    } else {
        let init = parts.drop_last();
        assert forall|i: int| 0 <= i < init.len() implies !(#[trigger] init[i]).contains(c) by {
            assert(init[i] == parts[i]);
        }
        lemma_split_undoes_join(init, c);
        lemma_split_single(parts.last(), c);
        lemma_split_across(joined(init, seq![c]), parts.last(), c);
        assert(joined(init, seq![c]) + seq![c] + parts.last() =~= joined(init, seq![c]).push(c)
            + parts.last());
        assert(init + seq![parts.last()] =~= parts);
    }
}

/// Whether a list of components is that of an absolute path: the root and then names.
pub open spec fn rooted(components: Seq<Seq<char>>) -> bool {
    &&& components.len() > 0
    &&& components[0] == root_component()
    &&& forall|i: int|
        1 <= i < components.len() ==> names_component(#[trigger] components[i])
            && !components[i].contains('/')
}

/// The components of an absolute path.
pub(crate) proof fn lemma_components_rooted(path: Seq<char>)
    requires
        is_absolute(path),
    ensures
        rooted(components_of(path)),
{
    lemma_pieces_hold_no_slash(path);
    lemma_named_pieces(split_on(path, '/'));
    let names = named(split_on(path, '/'));
    let all = components_of(path);
    assert forall|i: int| 1 <= i < all.len() implies names_component(#[trigger] all[i])
        && !all[i].contains('/') by {
        assert(all[i] == names[i - 1]);
        assert(split_on(path, '/').contains(names[i - 1]));
    }
}

proof fn lemma_named_pieces(pieces: Seq<Seq<char>>)
    ensures
        forall|i: int|
            0 <= i < named(pieces).len() ==> names_component(#[trigger] named(pieces)[i])
                && pieces.contains(named(pieces)[i]),
    decreases pieces.len(),
{
    if pieces.len() > 0 {
        let init = pieces.drop_last();
        lemma_named_pieces(init);
        assert forall|i: int| 0 <= i < named(pieces).len() implies names_component(
            #[trigger] named(pieces)[i],
        ) && pieces.contains(named(pieces)[i]) by {
            if i < named(init).len() {
                assert(named(pieces)[i] == named(init)[i]);
                let k = choose|k: int| 0 <= k < init.len() && init[k] == named(init)[i];
                assert(pieces[k] == named(init)[i]);
            } else {
                assert(pieces[pieces.len() - 1] == named(pieces)[i]);
            }
        }
    }
}

/// Names are named.
proof fn lemma_named_all(pieces: Seq<Seq<char>>)
    requires
        forall|i: int| 0 <= i < pieces.len() ==> names_component(#[trigger] pieces[i]),
    ensures
        named(pieces) == pieces,
    decreases pieces.len(),
{
    if pieces.len() > 0 {
        assert forall|i: int| 0 <= i < pieces.drop_last().len() implies names_component(
            #[trigger] pieces.drop_last()[i],
        ) by {
            assert(pieces.drop_last()[i] == pieces[i]);
        }
        lemma_named_all(pieces.drop_last());
        assert(names_component(pieces[pieces.len() - 1]));
        assert(named(pieces) =~= pieces);
    } else {
        assert(named(pieces) =~= pieces);
    }
}

/// A path spelled with some components has just those.
pub(crate) proof fn lemma_spelled_components(components: Seq<Seq<char>>)
    requires
        rooted(components),
    ensures
        is_absolute(spelled(components)),
        components_of(spelled(components)) == components,
{
    let names = components.drop_first();
    let tail = joined(names, seq!['/']);
    let path = spelled(components);
    let none = Seq::<char>::empty();
    assert(path =~= none.push('/') + tail);
    lemma_split_across(none, tail, '/');
    assert(split_on(none, '/') =~= seq![none]);
    assert forall|i: int| 0 <= i < names.len() implies names_component(#[trigger] names[i])
        && !names[i].contains('/') by {
        assert(names[i] == components[i + 1]);
    }
    lemma_named_add(seq![none], split_on(tail, '/'));
    assert(seq![none].drop_last() =~= Seq::<Seq<char>>::empty());
    assert(named(seq![none].drop_last()) =~= Seq::<Seq<char>>::empty());
    assert(named(seq![none]) =~= Seq::<Seq<char>>::empty());
    if names.len() > 0 {
        lemma_split_undoes_join(names, '/');
        lemma_named_all(names);
    } else {
        assert(tail =~= none);
        assert(split_on(tail, '/') =~= seq![none]);
        assert(named(split_on(tail, '/')) =~= names);
    }
    assert(components_of(path) =~= components);
}

/// Folding keeps the root in place.
pub(crate) proof fn lemma_folded_rooted(components: Seq<Seq<char>>, keep: bool)
    requires
        rooted(components),
    ensures
        rooted(folded(components, keep)),
    decreases components.len(),
{
    let init = components.drop_last();
    if init.len() > 0 {
        assert forall|i: int| 1 <= i < init.len() implies names_component(#[trigger] init[i])
            && !init[i].contains('/') by {
            assert(init[i] == components[i]);
        }
        lemma_folded_rooted(init, keep);
        let out = folded(init, keep);
        let last = components[components.len() - 1];
        assert(names_component(last) && !last.contains('/'));
        let all = folded(components, keep);
        assert forall|i: int| 1 <= i < all.len() implies names_component(#[trigger] all[i])
            && !all[i].contains('/') by {
            if i < out.len() {
                assert(all[i] == out[i]);
            }
        }
    } else {
        assert(folded(init, keep) =~= Seq::<Seq<char>>::empty());
        assert(root_component()[0] == '/');
        assert(folded(components, keep) =~= seq![root_component()]);
    }
}

/// The folded form of an absolute path is absolute, and its components are the folded
/// components.
pub(crate) proof fn lemma_normalized(path: Seq<char>, keep: bool)
    requires
        is_absolute(path),
    ensures
        is_absolute(normalized(path, keep)),
        components_of(normalized(path, keep)) == folded(components_of(path), keep),
        rooted(components_of(normalized(path, keep))),
{
    lemma_components_rooted(path);
    lemma_folded_rooted(components_of(path), keep);
    lemma_spelled_components(folded(components_of(path), keep));
}

/// Whether there is nothing left to fold: no `.`, and a `..` only where it leaves the root.
pub open spec fn settled(components: Seq<Seq<char>>, keep: bool) -> bool {
    forall|i: int|
        1 <= i < components.len() ==> #[trigger] components[i] != seq!['.'] && (components[i]
            == seq!['.', '.'] ==> i == 1 && keep)
}

/// Folding leaves nothing to fold.
pub(crate) proof fn lemma_folded_settled(components: Seq<Seq<char>>, keep: bool)
    requires
        rooted(components),
    ensures
        settled(folded(components, keep), keep),
    decreases components.len(),
{
    let init = components.drop_last();
    if init.len() > 0 {
        assert forall|i: int| 1 <= i < init.len() implies names_component(#[trigger] init[i])
            && !init[i].contains('/') by {
            assert(init[i] == components[i]);
        }
        lemma_folded_settled(init, keep);
        lemma_folded_rooted(init, keep);
        let out = folded(init, keep);
        let all = folded(components, keep);
        assert forall|i: int| 1 <= i < all.len() implies #[trigger] all[i] != seq!['.'] && (all[i]
            == seq!['.', '.'] ==> i == 1 && keep) by {
            if i < out.len() {
                assert(all[i] == out[i]);
            }
        }
    } else {
        assert(folded(init, keep) =~= Seq::<Seq<char>>::empty());
        assert(root_component()[0] == '/');
        assert(folded(components, keep) =~= seq![root_component()]);
    }
}

/// Folding changes nothing where nothing is left to fold.
pub(crate) proof fn lemma_settled_stays(components: Seq<Seq<char>>, keep: bool)
    requires
        rooted(components),
        settled(components, keep),
    ensures
        folded(components, keep) == components,
    decreases components.len(),
{
    let init = components.drop_last();
    let last = components[components.len() - 1];
    if init.len() > 0 {
        assert forall|i: int| 1 <= i < init.len() implies names_component(#[trigger] init[i])
            && !init[i].contains('/') && init[i] != seq!['.'] && (init[i] == seq!['.', '.'] ==> i
            == 1 && keep) by {
            assert(init[i] == components[i]);
        }
        lemma_settled_stays(init, keep);
        assert(last != seq!['.']);
        assert(folded(components, keep) =~= components);
    } else {
        assert(folded(init, keep) =~= Seq::<Seq<char>>::empty());
        assert(root_component()[0] == '/');
        assert(folded(components, keep) =~= components);
    }
}

/// A path that lies under a root lies under it when both are folded.
pub(crate) proof fn lemma_folded_contained(path: Seq<char>, root: Seq<char>)
    requires
        is_absolute(path),
        is_absolute(root),
        contained(path, root),
    ensures
        contained(normalized(path, false), normalized(root, false)),
{
    lemma_normalized(path, false);
    lemma_normalized(root, false);
    lemma_components_rooted(path);
    lemma_components_rooted(root);
    lemma_folded_settled(components_of(path), false);
    lemma_folded_settled(components_of(root), false);
    lemma_settled_stays(folded(components_of(path), false), false);
    lemma_settled_stays(folded(components_of(root), false), false);
}

/// Folding a folded path changes nothing.
pub proof fn normalizing_again_changes_nothing(path: Seq<char>, keep: bool)
    requires
        is_absolute(path),
    ensures
        normalized(normalized(path, keep), keep) == normalized(path, keep),
{
    lemma_components_rooted(path);
    lemma_normalized(path, keep);
    lemma_folded_settled(components_of(path), keep);
    lemma_settled_stays(folded(components_of(path), keep), keep);
}

/// The components of a path are the names between its slashes, in order: what is empty or a lone dot
/// is none. A path that starts at the root has the root before them.
pub proof fn components_stand_between_slashes(path: Seq<char>)
    ensures
        is_absolute(path) ==> components_of(path) == seq![seq!['/']] + split_on(path, '/').filter(
            |piece: Seq<char>| piece.len() > 0 && piece != seq!['.'],
        ),
        !is_absolute(path) && split_on(path, '/')[0] != seq!['.'] ==> components_of(path)
            == split_on(path, '/').filter(
            |piece: Seq<char>| piece.len() > 0 && piece != seq!['.'],
        ),
{
    lemma_named(split_on(path, '/'));
}

proof fn lemma_named(pieces: Seq<Seq<char>>)
    ensures
        named(pieces) == pieces.filter(|piece: Seq<char>| piece.len() > 0 && piece != seq!['.']),
    decreases pieces.len(),
{
    reveal(Seq::filter);
    if pieces.len() > 0 {
        lemma_named(pieces.drop_last());
    }
}

/// A step up undoes the step down before it, a step in place is none, and a path that only goes down
/// is folded to itself.
pub proof fn a_step_up_undoes_a_step_down(
    components: Seq<Seq<char>>,
    name: Seq<char>,
    keep: bool,
)
    requires
        name != seq!['.'],
        name != seq!['.', '.'],
        name != seq!['/'],
    ensures
        folded(components.push(name).push(seq!['.', '.']), keep) == folded(components, keep),
        folded(components.push(seq!['.']), keep) == folded(components, keep),
        folded(components.push(name), keep) == folded(components, keep).push(name),
        (forall|i: int|
            0 <= i < components.len() ==> #[trigger] components[i] != seq!['.'] && components[i]
                != seq!['.', '.']) ==> folded(components, keep) == components,
    decreases components.len(),
{
    let up = seq!['.', '.'];
    let here = seq!['.'];
    assert(up.len() == 2 && here.len() == 1);
    assert(components.push(name).push(up).drop_last() =~= components.push(name));
    assert(components.push(name).drop_last() =~= components);
    assert(components.push(here).drop_last() =~= components);
    let out = folded(components, keep);
    assert(out.push(name).drop_last() =~= out);
    assert(folded(components.push(name), keep) == out.push(name));
    assert(out.push(name)[out.len() as int] == name);
    assert(poppable(out.push(name)));
    assert(up != here) by {
        assert(up.len() != here.len());
    }
    if forall|i: int|
        0 <= i < components.len() ==> #[trigger] components[i] != here && components[i] != up {
        if components.len() > 0 {
            let init = components.drop_last();
            assert forall|i: int| 0 <= i < init.len() implies #[trigger] init[i] != here && init[i]
                != up by {
                assert(init[i] == components[i]);
            }
            a_step_up_undoes_a_step_down(init, name, keep);
            assert(components[components.len() - 1] != here);
            assert(init.push(components.last()) =~= components);
        } else {
            assert(components =~= Seq::<Seq<char>>::empty());
        }
    }
}

} // verus!
