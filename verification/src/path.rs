//! File paths as the library reasons about them: a list of components, and the
//! text they were read from.
//!
//! `std` reads a text into components by the rules of the platform it was
//! built for; everything after that (joining, taking the parent, cutting off a
//! prefix) is arithmetic on the list and on the text, and is proved here. The
//! text is what opens a file and what is written into one.

use crate::text::{chars_of, owned, same_text};
use vstd::prelude::*;
use vstd::std_specs::cmp::PartialEqSpecImpl;
use vstd::string::*;

verus! {

/// One component of a path.
#[derive(Debug, PartialEq, Eq)]
pub enum PathPart {
    /// A drive or share, on the platforms that have them.
    Prefix(String),
    /// The root directory.
    Root,
    /// `.`
    Here,
    /// `..`
    Up,
    /// A file or directory name.
    Name(String),
}

/// What a [`PathPart`] holds.
pub enum PartView {
    Prefix(Seq<char>),
    Root,
    Here,
    Up,
    Name(Seq<char>),
}

impl View for PathPart {
    type V = PartView;

    open spec fn view(&self) -> PartView {
        match self {
            PathPart::Prefix(p) => PartView::Prefix(p@),
            PathPart::Root => PartView::Root,
            PathPart::Here => PartView::Here,
            PathPart::Up => PartView::Up,
            PathPart::Name(n) => PartView::Name(n@),
        }
    }
}

impl Clone for PathPart {
    fn clone(&self) -> (r: Self)
        ensures
            r@ == self@,
    {
        match self {
            PathPart::Prefix(p) => PathPart::Prefix(p.clone()),
            PathPart::Root => PathPart::Root,
            PathPart::Here => PathPart::Here,
            PathPart::Up => PathPart::Up,
            PathPart::Name(n) => PathPart::Name(n.clone()),
        }
    }
}

impl PathPart {
    /// True when the two components are the same.
    pub fn same(&self, other: &PathPart) -> (r: bool)
        ensures
            r == (self@ == other@),
    {
        match (self, other) {
            (PathPart::Prefix(a), PathPart::Prefix(b)) => same_text(a, b),
            (PathPart::Root, PathPart::Root) => true,
            (PathPart::Here, PathPart::Here) => true,
            (PathPart::Up, PathPart::Up) => true,
            (PathPart::Name(a), PathPart::Name(b)) => same_text(a, b),
            _ => false,
        }
    }
}

/// A path: whether it is absolute, its components in order, and how it is
/// written. Two paths are the same when they agree on all but the last.
#[derive(Debug)]
pub struct NotePath {
    /// True when the path means the same file wherever it is read from.
    pub absolute: bool,
    /// The components, the root first where there is one.
    pub parts: Vec<PathPart>,
    /// The path as it is written.
    pub shown: String,
}

/// What a [`NotePath`] holds.
pub struct PathView {
    pub absolute: bool,
    pub parts: Seq<PartView>,
    pub text: Seq<char>,
}

/// Two paths name the same place, however they are written.
pub open spec fn same_place(a: PathView, b: PathView) -> bool {
    a.absolute == b.absolute && a.parts == b.parts
}

/// Two optional paths name the same place, or neither names any.
pub open spec fn same_places(a: Option<PathView>, b: Option<PathView>) -> bool {
    match (a, b) {
        (Some(a), Some(b)) => same_place(a, b),
        (None, None) => true,
        _ => false,
    }
}

/// The contents of a list of components.
pub open spec fn parts_view(parts: Seq<PathPart>) -> Seq<PartView> {
    parts.map_values(|p: PathPart| p@)
}

impl View for NotePath {
    type V = PathView;

    open spec fn view(&self) -> PathView {
        PathView {
            absolute: self.absolute,
            parts: parts_view(self.parts@),
            text: self.shown@,
        }
    }
}

impl PartialEq for NotePath {
    fn eq(&self, other: &Self) -> (r: bool) {
        self.same(other)
    }
}

impl Eq for NotePath {

}

impl PartialEqSpecImpl for NotePath {
    open spec fn obeys_eq_spec() -> bool {
        true
    }

    open spec fn eq_spec(&self, other: &Self) -> bool {
        same_place(self@, other@)
    }
}

impl Clone for NotePath {
    fn clone(&self) -> (r: Self)
        ensures
            r@ == self@,
    {
        let parts = copy_parts(&self.parts, 0, self.parts.len());
        proof {
            assert(parts_view(self.parts@).subrange(0, self.parts@.len() as int) =~= parts_view(
                self.parts@,
            ));
        }
        NotePath { absolute: self.absolute, parts, shown: self.shown.clone() }
    }
}

proof fn lemma_parts_push(parts: Seq<PathPart>, p: PathPart)
    ensures
        parts_view(parts.push(p)) == parts_view(parts).push(p@),
{
    assert(parts_view(parts.push(p)) =~= parts_view(parts).push(p@));
}

proof fn lemma_parts_add(a: Seq<PathPart>, b: Seq<PathPart>)
    ensures
        parts_view(a + b) == parts_view(a) + parts_view(b),
{
    assert(parts_view(a + b) =~= parts_view(a) + parts_view(b));
}

/// The components of `parts` from `from` up to `to`, as a list of their own.
fn copy_parts(parts: &Vec<PathPart>, from: usize, to: usize) -> (r: Vec<PathPart>)
    requires
        from <= to <= parts@.len(),
    ensures
        parts_view(r@) == parts_view(parts@).subrange(from as int, to as int),
{
    let mut out: Vec<PathPart> = Vec::new();
    let mut i: usize = from;
    while i < to
        invariant
            from <= i <= to <= parts@.len(),
            parts_view(out@) == parts_view(parts@).subrange(from as int, i as int),
        decreases to - i,
    {
        let ghost before = out@;
        let part = parts[i].clone();
        out.push(part);
        proof {
            lemma_parts_push(before, part);
            assert(parts_view(out@) =~= parts_view(parts@).subrange(from as int, i + 1));
        }
        i = i + 1;
    }
    proof {
        assert(parts_view(out@) =~= parts_view(parts@).subrange(from as int, to as int));
    }
    out
}

// ---------------------------------------------------------------------------
// Reading a text
// ---------------------------------------------------------------------------

/// The pieces of `s` between the separators: always at least one, and one more
/// than there are separators.
pub open spec fn split_on<T>(s: Seq<T>, sep: T) -> Seq<Seq<T>>
    decreases s.len(),
{
    if s.len() == 0 {
        seq![Seq::<T>::empty()]
    } else {
        let before = split_on(s.drop_last(), sep);
        if s.last() == sep {
            before.push(Seq::<T>::empty())
        } else {
            before.drop_last().push(before.last().push(s.last()))
        }
    }
}

/// The component a piece between slashes stands for, at the given place in its
/// path. An empty piece and a `.` that is not in front stand for nothing.
pub open spec fn slash_part(piece: Seq<char>, first: bool) -> Option<PartView> {
    if piece.len() == 0 {
        None
    } else if piece == seq!['.'] {
        if first {
            Some(PartView::Here)
        } else {
            None
        }
    } else if piece == seq!['.', '.'] {
        Some(PartView::Up)
    } else {
        Some(PartView::Name(piece))
    }
}

/// The components the first `n` pieces stand for.
pub open spec fn slash_parts_of(pieces: Seq<Seq<char>>, n: int) -> Seq<PartView>
    decreases n,
{
    if n <= 0 {
        Seq::empty()
    } else {
        let before = slash_parts_of(pieces, n - 1);
        match slash_part(pieces[n - 1], n == 1) {
            Some(part) => before.push(part),
            None => before,
        }
    }
}

/// The components of a text written with slashes.
pub open spec fn slash_parts(text: Seq<char>) -> Seq<PartView> {
    let pieces = split_on(text, '/');
    let names = slash_parts_of(pieces, pieces.len() as int);
    if text.len() > 0 && text[0] == '/' {
        seq![PartView::Root] + names
    } else {
        names
    }
}

/// True for a text that every platform reads the same way: no backslash, no
/// colon, and not two slashes in front.
pub open spec fn is_portable(text: Seq<char>) -> bool {
    &&& forall|i: int| 0 <= i < text.len() ==> #[trigger] text[i] != '\\' && text[i] != ':'
    &&& !(text.len() >= 2 && text[0] == '/' && text[1] == '/')
}

/// These components are what `text` may be read as. A portable text is read by
/// its slashes, and is not absolute unless it starts with one.
pub open spec fn parts_read(text: Seq<char>, absolute: bool, parts: Seq<PartView>) -> bool {
    is_portable(text) ==> {
        &&& parts == slash_parts(text)
        &&& !(text.len() > 0 && text[0] == '/') ==> !absolute
    }
}

/// `p` is something `text` may be read as, and is written as `text` is.
pub open spec fn reads_as(text: Seq<char>, p: PathView) -> bool {
    p.text == text && parts_read(text, p.absolute, p.parts)
}

/// `std::path::Path::is_absolute` and `Path::components` of `text`. For a
/// portable text the components are the pieces between its slashes; what any
/// other text is read as depends on the platform, and is left open.
#[verifier::external_body]
fn read_path(text: &str) -> (r: (bool, Vec<PathPart>))
    ensures
        parts_read(text@, r.0, parts_view(r.1@)),
{
    let path = std::path::Path::new(text);
    let parts = path.components().map(|part| match part {
        std::path::Component::Prefix(p) => PathPart::Prefix(p.as_os_str().to_string_lossy().into_owned()),
        std::path::Component::RootDir => PathPart::Root,
        std::path::Component::CurDir => PathPart::Here,
        std::path::Component::ParentDir => PathPart::Up,
        std::path::Component::Normal(n) => PathPart::Name(n.to_string_lossy().into_owned()),
    });
    (path.is_absolute(), parts.collect())
}

/// True when `p` is a single name, `text`, and nothing around it.
pub open spec fn is_just(p: PathView, text: Seq<char>) -> bool {
    p.parts == seq![PartView::Name(text)]
}

// ---------------------------------------------------------------------------
// Arithmetic on paths
// ---------------------------------------------------------------------------

/// True when the path starts with a drive or share.
pub open spec fn has_prefix_part(p: PathView) -> bool {
    p.parts.len() > 0 && p.parts[0] is Prefix
}

/// True when the path starts at a root with no drive or share in front.
pub open spec fn starts_at_root(p: PathView) -> bool {
    p.parts.len() > 0 && p.parts[0] is Root
}

/// What stands between a path and a name below it: the drive's separator on a
/// path that has one, a slash on any other, and nothing where there is one
/// already.
pub open spec fn between(base: PathView) -> Seq<char> {
    if base.text.len() == 0 || base.text.last() == '/' {
        Seq::empty()
    } else if has_prefix_part(base) {
        if base.text.last() == '\\' || (base.parts.len() == 1 && base.text.last() == ':') {
            Seq::empty()
        } else {
            seq!['\\']
        }
    } else {
        seq!['/']
    }
}

/// How a path is written that ends in `name` and begins as `base` does.
pub open spec fn text_below(base: PathView, name: Seq<char>) -> Seq<char> {
    base.text + between(base) + name
}

/// `rel` seen from `base`. An absolute `rel`, or one on a drive of its own,
/// stands for itself; one that only starts at a root keeps the drive of `base`;
/// any other is appended.
pub open spec fn joined(base: PathView, rel: PathView) -> PathView {
    if rel.absolute || has_prefix_part(rel) {
        rel
    } else if starts_at_root(rel) {
        if has_prefix_part(base) {
            PathView {
                absolute: true,
                parts: seq![base.parts[0]] + rel.parts,
                text: part_text(base.parts[0]) + rel.text,
            }
        } else {
            PathView { absolute: base.absolute, parts: rel.parts, text: rel.text }
        }
    } else {
        let own = if base.parts.len() > 0 && rel.parts.len() > 0 && rel.parts[0] is Here {
            rel.parts.skip(1)
        } else {
            rel.parts
        };
        PathView {
            absolute: base.absolute,
            parts: base.parts + own,
            text: text_below(base, rel.text),
        }
    }
}

/// The path one name below `base`.
pub open spec fn below(base: PathView, name: Seq<char>) -> PathView {
    PathView {
        absolute: base.absolute,
        parts: base.parts.push(PartView::Name(name)),
        text: text_below(base, name),
    }
}

/// Where `piece` first occurs in the text, from a place on; the end of the text
/// where it does not.
pub open spec fn found_from(text: Seq<char>, piece: Seq<char>, from: int) -> int
    decreases text.len() - from,
{
    if from >= text.len() || from + piece.len() > text.len() {
        text.len() as int
    } else if text.subrange(from, from + piece.len()) == piece {
        from
    } else {
        found_from(text, piece, from + 1)
    }
}

/// Where the component at `n` begins in the text of its path. Between two
/// components there is nothing but separators and dots, so that the component
/// is the first thing there that looks like it.
pub open spec fn start_of(text: Seq<char>, parts: Seq<PartView>, n: int) -> int {
    let from = end_of(text, parts, n);
    if parts[n] is Root {
        from
    } else {
        found_from(text, part_text(parts[n]), from)
    }
}

/// Where the first `n` components end in the text of their path.
pub open spec fn end_of(text: Seq<char>, parts: Seq<PartView>, n: int) -> int
    decreases n,
{
    if n <= 0 {
        0
    } else {
        let from = end_of(text, parts, n - 1);
        match parts[n - 1] {
            PartView::Root => if from < text.len() && (text[from] == '/' || text[from] == '\\') {
                from + 1
            } else {
                from
            },
            part => {
                let at = found_from(text, part_text(part), from);
                if at + part_text(part).len() > text.len() {
                    text.len() as int
                } else {
                    at + part_text(part).len()
                }
            },
        }
    }
}

/// The directory the path is in: everything but the last component, unless that
/// is a root or a drive.
pub open spec fn parent_of(p: PathView) -> Option<PathView> {
    if p.parts.len() == 0 || p.parts.last() is Root || p.parts.last() is Prefix {
        None
    } else {
        Some(
            PathView {
                absolute: p.absolute && p.parts.len() > 1,
                parts: p.parts.drop_last(),
                text: p.text.take(end_of(p.text, p.parts, p.parts.len() - 1)),
            },
        )
    }
}

/// The last component, when it is a name.
pub open spec fn file_name_of(p: PathView) -> Option<Seq<char>> {
    if p.parts.len() > 0 {
        match p.parts.last() {
            PartView::Name(n) => Some(n),
            _ => None,
        }
    } else {
        None
    }
}

/// The text of the components from `n` on, as it stands in the text of the path.
pub open spec fn text_from(p: PathView, n: int) -> Seq<char> {
    if n < p.parts.len() {
        let start = start_of(p.text, p.parts, n);
        let end = end_of(p.text, p.parts, p.parts.len() as int);
        if start <= end {
            p.text.subrange(start, end)
        } else {
            Seq::empty()
        }
    } else {
        Seq::empty()
    }
}

/// What is left of `p` below `base`, when `base` is where `p` begins.
pub open spec fn stripped(p: PathView, base: PathView) -> Option<PathView> {
    if base.parts.is_prefix_of(p.parts) {
        Some(
            PathView {
                absolute: p.absolute && base.parts.len() == 0,
                parts: p.parts.skip(base.parts.len() as int),
                text: text_from(p, base.parts.len() as int),
            },
        )
    } else {
        None
    }
}

/// The path with its last component replaced by `name`; one that does not end in
/// a name gets it added.
pub open spec fn renamed(p: PathView, name: Seq<char>) -> PathView {
    match (file_name_of(p), parent_of(p)) {
        (Some(_), Some(dir)) => below(dir, name),
        _ => below(p, name),
    }
}

/// True when the components stand where a platform puts them: a drive only in
/// front, a root only in front or behind the drive, a `.` only in front.
pub open spec fn well_formed(p: PathView) -> bool {
    &&& forall|i: int| 1 <= i < p.parts.len() ==> !(#[trigger] p.parts[i] is Prefix)
    &&& forall|i: int|
        1 <= i < p.parts.len() && #[trigger] p.parts[i] is Root ==> i == 1 && p.parts[0] is Prefix
            && p.absolute
    &&& forall|i: int| 1 <= i < p.parts.len() ==> !(#[trigger] p.parts[i] is Here)
}

/// The text of one component.
pub open spec fn part_text(p: PartView) -> Seq<char> {
    match p {
        PartView::Prefix(t) => t,
        PartView::Root => seq!['/'],
        PartView::Here => seq!['.'],
        PartView::Up => seq!['.', '.'],
        PartView::Name(t) => t,
    }
}

/// Is `piece` what stands in the text at that place?
fn stands_at(text: &Vec<char>, piece: &Vec<char>, at: usize) -> (r: bool)
    requires
        at + piece@.len() <= text@.len(),
    ensures
        r == (text@.subrange(at as int, at + piece@.len()) == piece@),
{
    let ghost here = text@.subrange(at as int, at + piece@.len());
    let n: usize = text.len();
    let mut i: usize = 0;
    while i < piece.len()
        invariant
            n == text@.len(),
            at + piece@.len() <= n,
            here == text@.subrange(at as int, at + piece@.len()),
            i <= piece@.len(),
            forall|k: int| 0 <= k < i ==> #[trigger] here[k] == piece@[k],
        decreases piece@.len() - i,
    {
        if text[at + i] != piece[i] {
            proof {
                assert(here[i as int] != piece@[i as int]);
            }
            return false;
        }
        i = i + 1;
    }
    proof {
        assert(here =~= piece@);
    }
    true
}

fn find_from(text: &Vec<char>, piece: &Vec<char>, from: usize) -> (r: usize)
    requires
        from <= text@.len(),
    ensures
        r == found_from(text@, piece@, from as int),
        from <= r <= text@.len(),
{
    let mut at: usize = from;
    while at < text.len() && piece.len() <= text.len() - at
        invariant
            from <= at <= text@.len(),
            found_from(text@, piece@, from as int) == found_from(text@, piece@, at as int),
        decreases text@.len() - at,
    {
        if stands_at(text, piece, at) {
            return at;
        }
        at = at + 1;
    }
    text.len()
}

/// The characters of one component.
fn part_chars(part: &PathPart) -> (r: Vec<char>)
    ensures
        r@ == part_text(part@),
{
    match part {
        PathPart::Prefix(t) => chars_of(t),
        PathPart::Name(t) => chars_of(t),
        PathPart::Root => {
            let mut r: Vec<char> = Vec::new();
            r.push('/');
            proof {
                assert(r@ =~= seq!['/']);
            }
            r
        },
        PathPart::Here => {
            let mut r: Vec<char> = Vec::new();
            r.push('.');
            proof {
                assert(r@ =~= seq!['.']);
            }
            r
        },
        PathPart::Up => {
            let mut r: Vec<char> = Vec::new();
            r.push('.');
            r.push('.');
            proof {
                assert(r@ =~= seq!['.', '.']);
            }
            r
        },
    }
}

/// Where the first `n` components end in the text of their path.
fn find_end(text: &Vec<char>, parts: &Vec<PathPart>, n: usize) -> (r: usize)
    requires
        n <= parts@.len(),
    ensures
        r == end_of(text@, parts_view(parts@), n as int),
        r <= text@.len(),
{
    let ghost view = parts_view(parts@);
    let mut at: usize = 0;
    let mut i: usize = 0;
    while i < n
        invariant
            i <= n <= parts@.len(),
            view == parts_view(parts@),
            at == end_of(text@, view, i as int),
            at <= text@.len(),
        decreases n - i,
    {
        proof {
            assert(view[i as int] == parts@[i as int]@);
        }
        if matches!(parts[i], PathPart::Root) {
            if at < text.len() && (text[at] == '/' || text[at] == '\\') {
                at = at + 1;
            }
        } else {
            let piece = part_chars(&parts[i]);
            let found: usize = find_from(text, &piece, at);
            at = if piece.len() > text.len() - found {
                text.len()
            } else {
                found + piece.len()
            };
        }
        i = i + 1;
    }
    at
}

/// Where the component at `n` begins in the text of its path.
fn find_start(text: &Vec<char>, parts: &Vec<PathPart>, n: usize) -> (r: usize)
    requires
        n < parts@.len(),
    ensures
        r == start_of(text@, parts_view(parts@), n as int),
        r <= text@.len(),
{
    let at: usize = find_end(text, parts, n);
    proof {
        assert(parts_view(parts@)[n as int] == parts@[n as int]@);
    }
    if matches!(parts[n], PathPart::Root) {
        return at;
    }
    let piece = part_chars(&parts[n]);
    find_from(text, &piece, at)
}

/// A part of a text, as a text of its own.
fn text_between(text: &Vec<char>, from: usize, to: usize) -> (r: String)
    requires
        from <= to <= text@.len(),
    ensures
        r@ == text@.subrange(from as int, to as int),
{
    let mut out = String::new();
    let mut i: usize = from;
    while i < to
        invariant
            from <= i <= to <= text@.len(),
            out@ == text@.subrange(from as int, i as int),
        decreases to - i,
    {
        out.push(text[i]);
        proof {
            assert(out@ =~= text@.subrange(from as int, i + 1));
        }
        i = i + 1;
    }
    proof {
        assert(out@ =~= text@.subrange(from as int, to as int));
    }
    out
}

impl NotePath {
    /// Reads a path by the rules of the platform.
    pub fn new(text: &str) -> (r: NotePath)
        ensures
            reads_as(text@, r@),
    {
        let (absolute, parts) = read_path(text);
        NotePath { absolute, parts, shown: owned(text) }
    }

    /// The path with no components.
    pub fn empty() -> (r: NotePath)
        ensures
            r@ == (PathView { absolute: false, parts: Seq::empty(), text: Seq::empty() }),
    {
        let r = NotePath { absolute: false, parts: Vec::new(), shown: String::new() };
        proof {
            assert(parts_view(r.parts@) =~= Seq::<PartView>::empty());
        }
        r
    }

    /// True when the two paths name the same place.
    pub fn same(&self, other: &NotePath) -> (r: bool)
        ensures
            r == same_place(self@, other@),
    {
        if self.absolute != other.absolute || self.parts.len() != other.parts.len() {
            proof {
                if self.parts@.len() != other.parts@.len() {
                    assert(self@.parts.len() != other@.parts.len());
                }
            }
            return false;
        }
        let same = self.starts_with(other);
        proof {
            if same {
                assert(self@.parts =~= other@.parts);
            } else {
                assert(other@.parts.is_prefix_of(self@.parts) <== self@.parts == other@.parts);
            }
        }
        same
    }

    /// True when the components of `base` are the first components of this path.
    pub fn starts_with(&self, base: &NotePath) -> (r: bool)
        ensures
            r == base@.parts.is_prefix_of(self@.parts),
    {
        if self.parts.len() < base.parts.len() {
            return false;
        }
        let mut i: usize = 0;
        while i < base.parts.len()
            invariant
                i <= base.parts@.len() <= self.parts@.len(),
                forall|k: int| 0 <= k < i ==> #[trigger] base@.parts[k] == self@.parts[k],
            decreases base.parts.len() - i,
        {
            if !self.parts[i].same(&base.parts[i]) {
                proof {
                    assert(self@.parts[i as int] != base@.parts[i as int]);
                    if base@.parts.is_prefix_of(self@.parts) {
                        let cut = self@.parts.subrange(0, base@.parts.len() as int);
                        assert(cut[i as int] == self@.parts[i as int]);
                    }
                }
                return false;
            }
            i = i + 1;
        }
        proof {
            assert(base@.parts =~= self@.parts.subrange(0, base@.parts.len() as int));
        }
        true
    }

    /// How a path is written that ends in `name` and begins as this one does.
    fn write_below(&self, name: &str) -> (r: String)
        ensures
            r@ == text_below(self@, name@),
    {
        let mut out = self.shown.clone();
        let n: usize = self.shown.as_str().unicode_len();
        if n > 0 {
            proof {
                if self.parts@.len() > 0 {
                    assert(self@.parts[0] == self.parts@[0]@);
                }
            }
            let last: char = self.shown.as_str().get_char(n - 1);
            let drive = self.parts.len() > 0 && matches!(self.parts[0], PathPart::Prefix(_));
            if last == '/' {
            } else if drive {
                if last != '\\' && !(self.parts.len() == 1 && last == ':') {
                    out.push('\\');
                }
            } else {
                out.push('/');
            }
        }
        proof {
            assert(out@ =~= self.shown@ + between(self@));
        }
        out.push_str(name);
        out
    }

    /// `rel` seen from this path.
    pub fn join(&self, rel: &NotePath) -> (r: NotePath)
        ensures
            r@ == joined(self@, rel@),
    {
        let own_drive = rel.parts.len() > 0 && matches!(rel.parts[0], PathPart::Prefix(_));
        if rel.absolute || own_drive {
            return rel.clone();
        }
        let rooted = rel.parts.len() > 0 && matches!(rel.parts[0], PathPart::Root);
        if rooted {
            if self.parts.len() > 0 {
                proof {
                    assert(self@.parts[0] == self.parts@[0]@);
                }
                if let PathPart::Prefix(drive) = &self.parts[0] {
                    let mut parts = copy_parts(&self.parts, 0, 1);
                    let mut rest = copy_parts(&rel.parts, 0, rel.parts.len());
                    let ghost (a, b) = (parts@, rest@);
                    parts.append(&mut rest);
                    let mut shown = drive.clone();
                    shown.push_str(&rel.shown);
                    proof {
                        lemma_parts_add(a, b);
                        assert(parts_view(parts@) =~= seq![self@.parts[0]] + rel@.parts);
                    }
                    return NotePath { absolute: true, parts, shown };
                }
            }
            let parts = copy_parts(&rel.parts, 0, rel.parts.len());
            proof {
                assert(parts_view(parts@) =~= rel@.parts);
            }
            return NotePath { absolute: self.absolute, parts, shown: rel.shown.clone() };
        }
        let from: usize = if self.parts.len() > 0 && rel.parts.len() > 0 && matches!(
            rel.parts[0],
            PathPart::Here
        ) {
            1
        } else {
            0
        };
        let mut parts = copy_parts(&self.parts, 0, self.parts.len());
        let mut rest = copy_parts(&rel.parts, from, rel.parts.len());
        let ghost (a, b) = (parts@, rest@);
        parts.append(&mut rest);
        proof {
            lemma_parts_add(a, b);
            assert(parts_view(parts@) =~= self@.parts + rel@.parts.skip(from as int));
            assert(rel@.parts.skip(0) =~= rel@.parts);
        }
        NotePath { absolute: self.absolute, parts, shown: self.write_below(&rel.shown) }
    }

    /// The path one name below this one.
    pub fn child(&self, name: &str) -> (r: NotePath)
        ensures
            r@ == below(self@, name@),
    {
        let mut parts = copy_parts(&self.parts, 0, self.parts.len());
        let ghost before = parts@;
        let part = PathPart::Name(owned(name));
        parts.push(part);
        proof {
            lemma_parts_push(before, part);
            assert(parts_view(parts@) =~= below(self@, name@).parts);
        }
        NotePath { absolute: self.absolute, parts, shown: self.write_below(name) }
    }

    /// The directory this path is in.
    pub fn parent(&self) -> (r: Option<NotePath>)
        ensures
            r is Some <==> parent_of(self@) is Some,
            r is Some ==> r.unwrap()@ == parent_of(self@).unwrap(),
    {
        let n: usize = self.parts.len();
        if n == 0 {
            return None;
        }
        proof {
            assert(self@.parts.last() == self.parts@.last()@);
        }
        if matches!(self.parts[n - 1], PathPart::Root | PathPart::Prefix(_)) {
            return None;
        }
        let parts = copy_parts(&self.parts, 0, n - 1);
        proof {
            assert(parts_view(parts@) =~= self@.parts.drop_last());
        }
        let text = chars_of(&self.shown);
        let end: usize = find_end(&text, &self.parts, n - 1);
        let shown = text_between(&text, 0, end);
        proof {
            assert(self@.text.take(end as int) =~= self@.text.subrange(0, end as int));
        }
        Some(NotePath { absolute: self.absolute && n > 1, parts, shown })
    }

    /// The last component, when it is a name.
    pub fn file_name(&self) -> (r: Option<String>)
        ensures
            r is Some <==> file_name_of(self@) is Some,
            r is Some ==> r.unwrap()@ == file_name_of(self@).unwrap(),
    {
        let n: usize = self.parts.len();
        if n == 0 {
            return None;
        }
        proof {
            assert(self@.parts.last() == self.parts@.last()@);
        }
        match &self.parts[n - 1] {
            PathPart::Name(name) => Some(name.clone()),
            _ => None,
        }
    }

    /// What is left of this path below `base`.
    pub fn strip_prefix(&self, base: &NotePath) -> (r: Option<NotePath>)
        ensures
            r is Some <==> stripped(self@, base@) is Some,
            r is Some ==> r.unwrap()@ == stripped(self@, base@).unwrap(),
    {
        if !self.starts_with(base) {
            return None;
        }
        let parts = copy_parts(&self.parts, base.parts.len(), self.parts.len());
        proof {
            assert(parts_view(parts@) =~= self@.parts.skip(base@.parts.len() as int));
        }
        let shown = self.text_of_rest(base.parts.len());
        Some(NotePath { absolute: self.absolute && base.parts.len() == 0, parts, shown })
    }

    /// The text of the components from `n` on.
    fn text_of_rest(&self, n: usize) -> (r: String)
        ensures
            r@ == text_from(self@, n as int),
    {
        if n >= self.parts.len() {
            return String::new();
        }
        let text = chars_of(&self.shown);
        let start: usize = find_start(&text, &self.parts, n);
        let end: usize = find_end(&text, &self.parts, self.parts.len());
        if start <= end {
            text_between(&text, start, end)
        } else {
            String::new()
        }
    }

    /// The path with its last component replaced by `name`; one that does not end
    /// in a name gets it added.
    pub fn with_file_name(&self, name: &str) -> (r: NotePath)
        ensures
            r@ == renamed(self@, name@),
    {
        match (self.file_name(), self.parent()) {
            (Some(_), Some(dir)) => dir.child(name),
            _ => self.child(name),
        }
    }

    /// The path as it is written.
    pub fn text(&self) -> (r: String)
        ensures
            r@ == self@.text,
    {
        self.shown.clone()
    }
}

/// True when `p` is a single name and that name is all of `text`.
pub fn names_just(p: &NotePath, text: &str) -> (r: bool)
    ensures
        r == is_just(p@, text@),
{
    if p.parts.len() != 1 {
        proof {
            assert(p@.parts.len() != 1);
        }
        return false;
    }
    proof {
        assert(p@.parts =~= seq![p.parts@[0]@]);
        assert(p@.parts[0] == p.parts@[0]@);
        assert(seq![PartView::Name(text@)][0] == PartView::Name(text@));
    }
    match &p.parts[0] {
        PathPart::Name(n) => same_text(n, text),
        _ => false,
    }
}

// ---------------------------------------------------------------------------
// Laws
// ---------------------------------------------------------------------------

/// Both paths were read on one platform, which tells by the front of a path
/// whether it is absolute: if one begins as the other does, both are or neither
/// is, but for a drive alone, which is not absolute where its root is.
pub open spec fn read_alike(p: PathView, base: PathView) -> bool {
    base.parts.is_prefix_of(p.parts) ==> if base.parts.len() == 0 {
        !base.absolute
    } else {
        base.absolute == p.absolute || (base.parts.len() == 1 && base.parts[0] is Prefix
            && p.absolute && p.parts.len() > 1 && p.parts[1] is Root)
    }
}

/// Cutting the front off a path and joining what is left back on gives the
/// path again.
pub proof fn joining_undoes_stripping(p: PathView, base: PathView)
    requires
        well_formed(p),
        read_alike(p, base),
        base.parts.is_prefix_of(p.parts),
        base.parts.len() < p.parts.len(),
    ensures
        stripped(p, base) is Some,
        same_place(joined(base, stripped(p, base).unwrap()), p),
{
    let rest = stripped(p, base).unwrap();
    let n = base.parts.len() as int;
    assert(rest.parts[0] == p.parts[n]);
    assert(base.parts + rest.parts =~= p.parts);
    if n == 0 {
        assert(rest.parts =~= p.parts);
    } else {
        assert(base.parts[0] == p.parts[0]);
        if starts_at_root(rest) {
            assert(seq![base.parts[0]] + rest.parts =~= p.parts);
        }
    }
}

pub proof fn lemma_split_len<T>(s: Seq<T>, sep: T)
    ensures
        1 <= split_on(s, sep).len() <= s.len() + 1,
    decreases s.len(),
{
    if s.len() > 0 {
        lemma_split_len(s.drop_last(), sep);
    }
}

/// Two runs, cut together: the last piece of the first runs on into the first
/// piece of the second.
pub proof fn splitting_a_sum<T>(a: Seq<T>, b: Seq<T>, sep: T)
    ensures
        split_on(a + b, sep) == split_on(a, sep).drop_last() + seq![
            split_on(a, sep).last() + split_on(b, sep)[0],
        ] + split_on(b, sep).skip(1),
    decreases b.len(),
{
    lemma_split_len(a, sep);
    lemma_split_len(b, sep);
    let pa = split_on(a, sep);
    let pb = split_on(b, sep);
    if b.len() == 0 {
        assert(a + b =~= a);
        assert(pb[0] =~= Seq::<T>::empty());
        assert(pa.last() + pb[0] =~= pa.last());
        assert(pa =~= pa.drop_last() + seq![pa.last()] + pb.skip(1));
    } else {
        let front = b.drop_last();
        let x = b.last();
        lemma_split_len(front, sep);
        splitting_a_sum(a, front, sep);
        assert((a + b).drop_last() =~= a + front);
        assert((a + b).last() == x);
        let pf = split_on(front, sep);
        let whole = split_on(a + front, sep);
        assert(whole == pa.drop_last() + seq![pa.last() + pf[0]] + pf.skip(1));
        if x == sep {
            assert(pb == pf.push(Seq::<T>::empty()));
            assert(pb[0] == pf[0]);
            assert(split_on(a + b, sep) =~= pa.drop_last() + seq![pa.last() + pb[0]] + pb.skip(1));
        } else {
            assert(pb == pf.drop_last().push(pf.last().push(x)));
            if pf.len() == 1 {
                assert(whole.last() == pa.last() + pf[0]);
                assert((pa.last() + pf[0]).push(x) =~= pa.last() + pf[0].push(x));
                assert(split_on(a + b, sep) =~= pa.drop_last() + seq![pa.last() + pb[0]]
                    + pb.skip(1));
            } else {
                assert(whole.last() == pf.last());
                assert(pb[0] == pf[0]);
                assert(split_on(a + b, sep) =~= pa.drop_last() + seq![pa.last() + pb[0]]
                    + pb.skip(1));
            }
        }
    }
}

pub proof fn lemma_split_without(s: Seq<char>)
    requires
        forall|i: int| 0 <= i < s.len() ==> #[trigger] s[i] != '/',
    ensures
        split_on(s, '/') =~= seq![s],
    decreases s.len(),
{
    if s.len() > 0 {
        let front = s.drop_last();
        assert forall|i: int| 0 <= i < front.len() implies #[trigger] front[i] != '/' by {
            assert(front[i] == s[i]);
        }
        lemma_split_without(front);
        assert(front.push(s.last()) =~= s);
    } else {
        assert(s =~= Seq::<char>::empty());
    }
}

/// A text with no separator, drive mark or leading dot in it is read as a
/// single name, on every platform.
pub proof fn plain_text_is_a_single_name(text: Seq<char>, p: PathView)
    requires
        reads_as(text, p),
        text.len() > 0,
        text[0] != '.',
        forall|i: int|
            0 <= i < text.len() ==> #[trigger] text[i] != '/' && text[i] != '\\' && text[i] != ':',
    ensures
        is_just(p, text),
        !p.absolute,
{
    lemma_split_without(text);
    let pieces = split_on(text, '/');
    assert(pieces.len() == 1);
    assert(pieces[0] == text);
    assert(seq!['.'][0] == '.');
    assert(seq!['.', '.'][0] == '.');
    assert(slash_parts_of(pieces, 0) =~= Seq::<PartView>::empty());
    assert(slash_parts_of(pieces, 1) =~= seq![PartView::Name(text)]);
}

// ---------------------------------------------------------------------------
// Optional paths
// ---------------------------------------------------------------------------

/// What a list of paths holds.
pub open spec fn paths_view(paths: Seq<NotePath>) -> Seq<PathView> {
    paths.map_values(|p: NotePath| p@)
}

/// What an optional path holds.
pub open spec fn opt_path(p: Option<NotePath>) -> Option<PathView> {
    match p {
        Some(p) => Some(p@),
        None => None,
    }
}

/// What an optional borrowed path holds.
pub open spec fn opt_ref(p: Option<&NotePath>) -> Option<PathView> {
    match p {
        Some(p) => Some(p@),
        None => None,
    }
}

} // verus!
