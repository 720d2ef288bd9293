//! Slash-separated paths.
//!
//! A path is read as a sequence of parts between `/` characters. Empty
//! segments and `.` segments carry no meaning and are skipped, so `a//b/./c`
//! and `a/b/c` are the same path. A path that starts with `/` is rooted. A
//! `..` part is kept as it stands; it never counts as a file name.

use vstd::prelude::*;
use crate::text::chars_eq;
use crate::text::chars_of;
use crate::text::push_chars;
use crate::text::string_of;

verus! {

/// What a path means: whether it starts at the root, and its parts in order.
pub struct PathModel {
    pub rooted: bool,
    pub parts: Seq<Seq<char>>,
}

/// The segments of a text between its `/` characters. A text with `n`
/// separators has `n + 1` segments, some of which may be empty.
pub open spec fn split(s: Seq<char>) -> Seq<Seq<char>>
    decreases s.len(),
{
    if s.len() == 0 {
        seq![Seq::<char>::empty()]
    } else if s.last() == '/' {
        split(s.drop_last()).push(Seq::<char>::empty())
    } else {
        let before = split(s.drop_last());
        before.drop_last().push(before.last().push(s.last()))
    }
}

/// A segment that counts as a part of a path: not empty and not `.`.
pub open spec fn is_part(segment: Seq<char>) -> bool {
    segment.len() > 0 && segment != seq!['.']
}

/// `is_part` as a predicate value.
pub open spec fn part_filter() -> spec_fn(Seq<char>) -> bool {
    |segment: Seq<char>| is_part(segment)
}

/// The meaning of a path written as text.
pub open spec fn model_of(s: Seq<char>) -> PathModel {
    PathModel { rooted: s.len() > 0 && s[0] == '/', parts: split(s).filter(part_filter()) }
}

/// The `..` part.
pub open spec fn dot_dot() -> Seq<char> {
    seq!['.', '.']
}

/// The index of the last `.` in a name, if it has one.
pub open spec fn last_dot(name: Seq<char>) -> Option<int>
    decreases name.len(),
{
    if name.len() == 0 {
        None
    } else if name.last() == '.' {
        Some(name.len() - 1)
    } else {
        last_dot(name.drop_last())
    }
}

/// The extension of a file name: what follows its last `.`, unless the name
/// has no `.` or only a leading one.
pub open spec fn extension_of(name: Seq<char>) -> Option<Seq<char>> {
    if name == dot_dot() {
        None
    } else {
        match last_dot(name) {
            Some(i) if i > 0 => Some(name.skip(i + 1)),
            _ => None,
        }
    }
}

/// The stem of a file name: what precedes its last `.`, or the whole name
/// where `extension_of` finds no extension.
pub open spec fn stem_of(name: Seq<char>) -> Seq<char> {
    if name == dot_dot() {
        name
    } else {
        match last_dot(name) {
            Some(i) if i > 0 => name.take(i),
            _ => name,
        }
    }
}

/// The parts written one after the other with a `/` between neighbours.
pub open spec fn join_parts(parts: Seq<Seq<char>>) -> Seq<char>
    decreases parts.len(),
{
    if parts.len() == 0 {
        Seq::<char>::empty()
    } else if parts.len() == 1 {
        parts[0]
    } else {
        join_parts(parts.drop_last()).push('/') + parts.last()
    }
}

impl PathModel {
    /// The last part, unless the path has no parts or ends in `..`.
    pub open spec fn file_name(self) -> Option<Seq<char>> {
        if self.parts.len() > 0 && self.parts.last() != dot_dot() {
            Some(self.parts.last())
        } else {
            None
        }
    }

    /// The path without its last part, unless it has no parts.
    pub open spec fn parent(self) -> Option<PathModel> {
        if self.parts.len() > 0 {
            Some(PathModel { rooted: self.rooted, parts: self.parts.drop_last() })
        } else {
            None
        }
    }

    /// Whether `self` lies at or below `base`: both rooted or both not, and
    /// the parts of `base` lead the parts of `self`.
    pub open spec fn starts_with(self, base: PathModel) -> bool {
        &&& self.rooted == base.rooted
        &&& base.parts.len() <= self.parts.len()
        &&& self.parts.take(base.parts.len() as int) == base.parts
    }

    /// The parts of `self` that follow `base`, as an unrooted path, where
    /// `self` starts with `base`.
    pub open spec fn strip_prefix(self, base: PathModel) -> Option<PathModel> {
        if self.starts_with(base) {
            Some(PathModel { rooted: false, parts: self.parts.skip(base.parts.len() as int) })
        } else {
            None
        }
    }

    /// `rel` placed under `self`. A rooted `rel` stands for itself.
    pub open spec fn join(self, rel: PathModel) -> PathModel {
        if rel.rooted {
            rel
        } else {
            PathModel { rooted: self.rooted, parts: self.parts + rel.parts }
        }
    }

    /// The extension of the file name, if there is a file name and it has one.
    pub open spec fn extension(self) -> Option<Seq<char>> {
        match self.file_name() {
            Some(name) => extension_of(name),
            None => None,
        }
    }

    /// The path with the extension of its file name replaced by `ext`, or
    /// added where the name has none. A path without a file name is left as
    /// it is.
    pub open spec fn with_extension(self, ext: Seq<char>) -> PathModel {
        match self.file_name() {
            Some(name) => PathModel {
                rooted: self.rooted,
                parts: self.parts.drop_last().push(stem_of(name).push('.') + ext),
            },
            None => self,
        }
    }

    /// The path written as text: a leading `/` if rooted, then the parts
    /// with `/` between them.
    pub open spec fn render(self) -> Seq<char> {
        if self.rooted {
            seq!['/'] + join_parts(self.parts)
        } else {
            join_parts(self.parts)
        }
    }
}

/// The texts held by a vector of character vectors.
pub open spec fn texts(v: Seq<Vec<char>>) -> Seq<Seq<char>> {
    Seq::new(v.len(), |i: int| v[i]@)
}

/// The text held by an optional character vector.
pub open spec fn text_of(o: Option<Vec<char>>) -> Option<Seq<char>> {
    match o {
        Some(v) => Some(v@),
        None => None,
    }
}

/// The meaning of an optional path.
pub open spec fn model_opt(o: Option<ParsedPath>) -> Option<PathModel> {
    match o {
        Some(p) => Some(p@),
        None => None,
    }
}

/// A path taken apart into its parts.
#[derive(Debug, PartialEq, Eq)]
pub struct ParsedPath {
    pub rooted: bool,
    pub parts: Vec<Vec<char>>,
}

impl View for ParsedPath {
    type V = PathModel;

    open spec fn view(&self) -> PathModel {
        PathModel { rooted: self.rooted, parts: texts(self.parts@) }
    }
}

/// A text always has at least one segment.
pub proof fn lemma_split_nonempty(s: Seq<char>)
    ensures
        split(s).len() >= 1,
    decreases s.len(),
{
    if s.len() > 0 {
        lemma_split_nonempty(s.drop_last());
    }
}

/// A copy of a character vector.
pub fn copy_chars(v: &Vec<char>) -> (out: Vec<char>)
    ensures
        out@ == v@,
{
    let mut out: Vec<char> = Vec::new();
    push_chars(&mut out, v);
    out
}

/// A copy of the characters from index `from` up to index `to`.
pub fn copy_range(v: &Vec<char>, from: usize, to: usize) -> (out: Vec<char>)
    requires
        from <= to <= v.len(),
    ensures
        out@ == v@.subrange(from as int, to as int),
{
    let mut out: Vec<char> = Vec::new();
    let mut i: usize = from;
    while i < to
        invariant
            from <= i <= to,
            to <= v.len(),
            out@ == v@.subrange(from as int, i as int),
        decreases to - i,
    {
        out.push(v[i]);
        assert(out@ =~= v@.subrange(from as int, i + 1));
        i += 1;
    }
    out
}

/// A copy of the parts from index `from` up to index `to`.
pub fn copy_parts(parts: &Vec<Vec<char>>, from: usize, to: usize) -> (out: Vec<Vec<char>>)
    requires
        from <= to <= parts.len(),
    ensures
        texts(out@) == texts(parts@).subrange(from as int, to as int),
{
    let mut out: Vec<Vec<char>> = Vec::new();
    let mut i: usize = from;
    while i < to
        invariant
            from <= i <= to,
            to <= parts.len(),
            texts(out@) == texts(parts@).subrange(from as int, i as int),
        decreases to - i,
    {
        let part = copy_chars(&parts[i]);
        let ghost before = texts(out@);
        out.push(part);
        assert(texts(out@) =~= before.push(part@));
        assert(texts(out@) =~= texts(parts@).subrange(from as int, i + 1));
        i += 1;
    }
    assert(texts(out@) =~= texts(parts@).subrange(from as int, to as int));
    out
}

/// Whether a segment counts as a part.
pub fn segment_is_part(segment: &Vec<char>) -> (yes: bool)
    ensures
        yes == is_part(segment@),
{
    if segment.len() == 0 {
        false
    } else if segment.len() == 1 && segment[0] == '.' {
        assert(segment@ =~= seq!['.']);
        false
    } else {
        assert(segment@.len() == 1 ==> segment@[0] != seq!['.'][0]);
        true
    }
}

/// Whether a part is `..`.
pub fn part_is_dot_dot(part: &Vec<char>) -> (yes: bool)
    ensures
        yes == (part@ == dot_dot()),
{
    if part.len() == 2 && part[0] == '.' && part[1] == '.' {
        assert(part@ =~= dot_dot());
        true
    } else {
        assert(part@.len() == 2 ==> part@[0] != dot_dot()[0] || part@[1] != dot_dot()[1]);
        false
    }
}

/// Finds the last `.` of a name.
pub fn find_last_dot(name: &Vec<char>) -> (at: Option<usize>)
    ensures
        match at {
            Some(i) => i < name.len() && last_dot(name@) == Some(i as int),
            None => last_dot(name@).is_none(),
        },
{
    let mut i: usize = name.len();
    assert(name@.take(i as int) =~= name@);
    while i > 0
        invariant
            i <= name.len(),
            last_dot(name@) == last_dot(name@.take(i as int)),
        decreases i,
    {
        assert(name@.take(i as int).last() == name@[i - 1]);
        assert(name@.take(i as int).drop_last() =~= name@.take(i - 1));
        if name[i - 1] == '.' {
            return Some(i - 1);
        }
        i -= 1;
    }
    None
}

/// The extension of a file name, if it has one.
pub fn name_extension(name: &Vec<char>) -> (ext: Option<Vec<char>>)
    ensures
        text_of(ext) == extension_of(name@),
{
    if part_is_dot_dot(name) {
        return None;
    }
    match find_last_dot(name) {
        Some(i) => {
            if i > 0 {
                Some(copy_range(name, i + 1, name.len()))
            } else {
                None
            }
        },
        None => None,
    }
}

/// The stem of a file name.
pub fn name_stem(name: &Vec<char>) -> (stem: Vec<char>)
    ensures
        stem@ == stem_of(name@),
{
    if part_is_dot_dot(name) {
        return copy_chars(name);
    }
    match find_last_dot(name) {
        Some(i) => {
            if i > 0 {
                copy_range(name, 0, i)
            } else {
                copy_chars(name)
            }
        },
        None => copy_chars(name),
    }
}

impl ParsedPath {
    /// Reads a path from its characters.
    pub fn from_chars(chars: &Vec<char>) -> (path: ParsedPath)
        ensures
            path@ == model_of(chars@),
    {
        let mut parts: Vec<Vec<char>> = Vec::new();
        let mut current: Vec<char> = Vec::new();
        let mut i: usize = 0;
        assert(chars@.take(0) =~= Seq::<char>::empty());
        assert(texts(parts@) =~= Seq::<Seq<char>>::empty());
        proof {
            reveal(Seq::filter);
            assert(split(chars@.take(0)).drop_last() =~= Seq::<Seq<char>>::empty());
        }
        while i < chars.len()
            invariant
                i <= chars.len(),
                split(chars@.take(i as int)).len() >= 1,
                split(chars@.take(i as int)).last() == current@,
                texts(parts@) == split(chars@.take(i as int)).drop_last().filter(part_filter()),
            decreases chars.len() - i,
        {
            let c = chars[i];
            proof {
                let before = chars@.take(i as int);
                let now = chars@.take(i + 1);
                assert(now.drop_last() =~= before);
                assert(now.last() == c);
                lemma_split_nonempty(now);
                if c == '/' {
                    assert(split(now).drop_last() =~= split(before));
                    assert(split(before) =~= split(before).drop_last().push(current@));
                    split(before).drop_last().lemma_filter_push(current@, part_filter());
                } else {
                    assert(split(now).drop_last() =~= split(before).drop_last());
                }
            }
            if c == '/' {
                if segment_is_part(&current) {
                    let ghost before_parts = texts(parts@);
                    parts.push(current);
                    assert(texts(parts@) =~= before_parts.push(current@));
                }
                current = Vec::new();
            } else {
                current.push(c);
            }
            i += 1;
        }
        proof {
            assert(chars@.take(chars.len() as int) =~= chars@);
            assert(split(chars@) =~= split(chars@).drop_last().push(current@));
            split(chars@).drop_last().lemma_filter_push(current@, part_filter());
        }
        if segment_is_part(&current) {
            let ghost before_parts = texts(parts@);
            parts.push(current);
            assert(texts(parts@) =~= before_parts.push(current@));
        }
        ParsedPath { rooted: chars.len() > 0 && chars[0] == '/', parts }
    }

    /// Reads a path from text.
    pub fn parse(s: &str) -> (path: ParsedPath)
        ensures
            path@ == model_of(s@),
    {
        let chars = chars_of(s);
        ParsedPath::from_chars(&chars)
    }

    /// A copy of the path.
    pub fn copy(&self) -> (out: ParsedPath)
        ensures
            out@ == self@,
    {
        let parts = copy_parts(&self.parts, 0, self.parts.len());
        assert(texts(self.parts@).subrange(0, self.parts.len() as int) =~= texts(self.parts@));
        ParsedPath { rooted: self.rooted, parts }
    }

    /// The file name of the path, if it has one.
    pub fn file_name(&self) -> (name: Option<Vec<char>>)
        ensures
            text_of(name) == self@.file_name(),
    {
        let n = self.parts.len();
        if n > 0 && !part_is_dot_dot(&self.parts[n - 1]) {
            Some(copy_chars(&self.parts[n - 1]))
        } else {
            None
        }
    }

    /// The path without its last part, if it has a part.
    pub fn parent(&self) -> (up: Option<ParsedPath>)
        ensures
            model_opt(up) == self@.parent(),
    {
        let n = self.parts.len();
        if n > 0 {
            let parts = copy_parts(&self.parts, 0, n - 1);
            assert(texts(self.parts@).subrange(0, n - 1) =~= texts(self.parts@).drop_last());
            Some(ParsedPath { rooted: self.rooted, parts })
        } else {
            None
        }
    }

    /// Whether the path lies at or below `base`.
    pub fn starts_with(&self, base: &ParsedPath) -> (yes: bool)
        ensures
            yes == self@.starts_with(base@),
    {
        if self.rooted != base.rooted || base.parts.len() > self.parts.len() {
            return false;
        }
        let n = base.parts.len();
        let mut i: usize = 0;
        while i < n
            invariant
                i <= n,
                n == base.parts.len(),
                n <= self.parts.len(),
                texts(self.parts@).take(i as int) == texts(base.parts@).take(i as int),
            decreases n - i,
        {
            if !chars_eq(&self.parts[i], &base.parts[i]) {
                assert(texts(self.parts@).take(n as int)[i as int] != texts(base.parts@)[i as int]);
                return false;
            }
            assert(texts(self.parts@).take(i + 1) =~= texts(self.parts@).take(i as int).push(
                self.parts@[i as int]@,
            ));
            assert(texts(base.parts@).take(i + 1) =~= texts(base.parts@).take(i as int).push(
                base.parts@[i as int]@,
            ));
            i += 1;
        }
        assert(texts(base.parts@).take(n as int) =~= texts(base.parts@));
        true
    }

    /// The parts that follow `base`, where the path starts with `base`.
    pub fn strip_prefix(&self, base: &ParsedPath) -> (rest: Option<ParsedPath>)
        ensures
            model_opt(rest) == self@.strip_prefix(base@),
    {
        if self.starts_with(base) {
            let parts = copy_parts(&self.parts, base.parts.len(), self.parts.len());
            assert(texts(self.parts@).subrange(
                base.parts.len() as int,
                self.parts.len() as int,
            ) =~= texts(self.parts@).skip(base.parts.len() as int));
            Some(ParsedPath { rooted: false, parts })
        } else {
            None
        }
    }

    /// `rel` placed under the path.
    pub fn join(&self, rel: &ParsedPath) -> (out: ParsedPath)
        ensures
            out@ == self@.join(rel@),
    {
        if rel.rooted {
            rel.copy()
        } else {
            let mut parts = copy_parts(&self.parts, 0, self.parts.len());
            let mut tail = copy_parts(&rel.parts, 0, rel.parts.len());
            let ghost head_texts = texts(parts@);
            let ghost tail_texts = texts(tail@);
            parts.append(&mut tail);
            assert(texts(parts@) =~= head_texts + tail_texts);
            assert(head_texts =~= texts(self.parts@));
            assert(tail_texts =~= texts(rel.parts@));
            ParsedPath { rooted: self.rooted, parts }
        }
    }

    /// The extension of the file name, if there is one.
    pub fn extension(&self) -> (ext: Option<Vec<char>>)
        ensures
            text_of(ext) == self@.extension(),
    {
        match self.file_name() {
            Some(name) => name_extension(&name),
            None => None,
        }
    }

    /// The path with the extension of its file name replaced by `ext`.
    pub fn with_extension(&self, ext: &Vec<char>) -> (out: ParsedPath)
        ensures
            out@ == self@.with_extension(ext@),
    {
        match self.file_name() {
            Some(name) => {
                let n = self.parts.len();
                let mut parts = copy_parts(&self.parts, 0, n - 1);
                assert(texts(self.parts@).subrange(0, n - 1) =~= texts(self.parts@).drop_last());
                let mut last = name_stem(&name);
                last.push('.');
                push_chars(&mut last, ext);
                let ghost before = texts(parts@);
                parts.push(last);
                assert(texts(parts@) =~= before.push(last@));
                ParsedPath { rooted: self.rooted, parts }
            },
            None => self.copy(),
        }
    }

    /// The path written as text.
    pub fn render_chars(&self) -> (out: Vec<char>)
        ensures
            out@ == self@.render(),
    {
        let mut out: Vec<char> = Vec::new();
        if self.rooted {
            out.push('/');
        }
        let ghost lead = out@;
        let n = self.parts.len();
        let mut i: usize = 0;
        assert(texts(self.parts@).take(0) =~= Seq::<Seq<char>>::empty());
        while i < n
            invariant
                i <= n,
                n == self.parts.len(),
                out@ == lead + join_parts(texts(self.parts@).take(i as int)),
            decreases n - i,
        {
            proof {
                let done = texts(self.parts@).take(i as int);
                let next = texts(self.parts@).take(i + 1);
                assert(next.drop_last() =~= done);
                assert(next.last() == self.parts@[i as int]@);
            }
            if i > 0 {
                out.push('/');
            }
            push_chars(&mut out, &self.parts[i]);
            assert(out@ =~= lead + join_parts(texts(self.parts@).take(i + 1)));
            i += 1;
        }
        assert(texts(self.parts@).take(n as int) =~= texts(self.parts@));
        assert(self.rooted ==> lead =~= seq!['/']);
        assert(!self.rooted ==> out@ =~= join_parts(texts(self.parts@)));
        out
    }

    /// The path written as a string.
    pub fn render(&self) -> (out: String)
        ensures
            out@ == self@.render(),
    {
        let chars = self.render_chars();
        string_of(&chars)
    }
}

/// The text of `abs_path` relative to `base`: the parts of `abs_path` that
/// follow `base`, or `abs_path` as it was given where it does not start with
/// `base`.
pub open spec fn relative_to_model(abs_path: Seq<char>, base: PathModel) -> Seq<char> {
    match model_of(abs_path).strip_prefix(base) {
        Some(rest) => rest.render(),
        None => abs_path,
    }
}

/// The text of `abs_path` relative to `root_path`.
pub open spec fn relative_text(abs_path: Seq<char>, root_path: Seq<char>) -> Seq<char> {
    relative_to_model(abs_path, model_of(root_path))
}

/// The text under which an image found under `root` is reported: its path
/// relative to the parent of `root`, so that it begins with the root's own
/// name. Where `root` has no parent the image's path is given as it is.
pub open spec fn source_relative(entry: Seq<char>, root: Seq<char>) -> Seq<char> {
    match model_of(root).parent() {
        Some(parent) => relative_to_model(entry, parent),
        None => entry,
    }
}

/// Writes `abs_path` relative to `base`.
pub fn relative_to(abs_path: &str, base: &ParsedPath) -> (relative: String)
    ensures
        relative@ == relative_to_model(abs_path@, base@),
{
    let path = ParsedPath::parse(abs_path);
    match path.strip_prefix(base) {
        Some(rest) => rest.render(),
        None => abs_path.to_owned(),
    }
}

/// Writes `abs_path` relative to `root_path`.
pub fn get_relative_path_str(abs_path: &str, root_path: &str) -> (relative: String)
    ensures
        relative@ == relative_text(abs_path@, root_path@),
{
    let root = ParsedPath::parse(root_path);
    relative_to(abs_path, &root)
}

/// Writes the path under which an image found under `root` is reported.
pub fn source_relative_path(entry: &str, root: &str) -> (relative: String)
    ensures
        relative@ == source_relative(entry@, root@),
{
    match ParsedPath::parse(root).parent() {
        Some(parent) => relative_to(entry, &parent),
        None => entry.to_owned(),
    }
}

} // verus!
