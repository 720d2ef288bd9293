//! Discovery: which of the files found under a selected root are images,
//! and how the images of a selection are listed.

use vstd::prelude::*;
use crate::path::model_of;
use crate::path::source_relative;
use crate::path::source_relative_path;
use crate::path::ParsedPath;
use crate::path_laws::is_clean_part;
use crate::path_laws::lemma_read_parts_are_clean;
use crate::path_laws::lemma_render_then_read;
use crate::sorting::is_stable_sort_of;
use crate::sorting::lemma_sort_of_images;
use crate::sorting::path_key;
use crate::sorting::sort_by_path;
use crate::sorting::Pathed;
use crate::text::chars_eq;
use crate::text::chars_of;
use crate::text::lowercase;
use crate::text::string_of;
use crate::text::to_lowercase;

verus! {

/// Something that a walk of a directory tree came across.
#[derive(Debug, PartialEq, Eq)]
pub struct WalkEntry {
    pub path: String,
    /// Whether it is a regular file.
    pub is_file: bool,
}

/// Whether a lowercase extension is that of an image: `png`, `jpg` or
/// `jpeg`.
pub open spec fn is_image_extension(ext: Seq<char>) -> bool {
    ext == "png"@ || ext == "jpg"@ || ext == "jpeg"@
}

/// Whether a path names an image: it has an extension which, in lowercase,
/// is that of an image.
pub open spec fn is_image_path(path: Seq<char>) -> bool {
    match model_of(path).extension() {
        Some(ext) => is_image_extension(lowercase(ext)),
        None => false,
    }
}

/// Whether an entry of a walk is an image: a regular file whose path names
/// an image.
pub open spec fn is_image_entry(entry: WalkEntry) -> bool {
    entry.is_file && is_image_path(entry.path@)
}

/// `is_image_entry` as a predicate value.
pub open spec fn image_filter() -> spec_fn(WalkEntry) -> bool {
    |entry: WalkEntry| is_image_entry(entry)
}

/// Decides whether a lowercase extension is that of an image.
pub fn allowed_extension(ext: &str) -> (yes: bool)
    ensures
        yes == is_image_extension(ext@),
{
    let chars = chars_of(ext);
    chars_eq(&chars, &chars_of("png")) || chars_eq(&chars, &chars_of("jpg")) || chars_eq(
        &chars,
        &chars_of("jpeg"),
    )
}

/// Decides whether a path names an image.
pub fn names_image(path: &str) -> (yes: bool)
    ensures
        yes == is_image_path(path@),
{
    match ParsedPath::parse(path).extension() {
        Some(ext) => {
            let lowered = to_lowercase(string_of(&ext).as_str());
            allowed_extension(lowered.as_str())
        },
        None => false,
    }
}

/// Decides whether an entry of a walk is an image.
pub fn is_image(entry: &WalkEntry) -> (yes: bool)
    ensures
        yes == is_image_entry(*entry),
{
    entry.is_file && names_image(entry.path.as_str())
}

/// Keeps the images among the entries of a walk, in the order of the walk.
pub fn get_image_entries_from_path(entries: Vec<WalkEntry>) -> (images: Vec<WalkEntry>)
    ensures
        images@ == entries@.filter(image_filter()),
        forall|i: int| 0 <= i < images@.len() ==> is_image_entry(#[trigger] images@[i]),
{
    let ghost all = entries@;
    let mut images: Vec<WalkEntry> = Vec::new();
    proof {
        reveal(Seq::filter);
        assert(all.take(0) =~= Seq::<WalkEntry>::empty());
    }
    for entry in it: entries
        invariant
            it.seq() == all,
            images@ == all.take(it.index()).filter(image_filter()),
    {
        proof {
            let done = all.take(it.index());
            assert(all.take(it.index() + 1) =~= done.push(entry));
            done.lemma_filter_push(entry, image_filter());
        }
        if is_image(&entry) {
            images.push(entry);
        }
    }
    assert(all.take(all.len() as int) =~= all);
    assert forall|i: int| 0 <= i < images@.len() implies is_image_entry(#[trigger] images@[i]) by {
        all.lemma_filter_pred(image_filter(), i);
    }
    images
}

/// An image found under a selected root, with its size in bytes.
#[derive(Debug, PartialEq, Eq)]
pub struct ImageFile {
    pub path: String,
    pub size: u64,
}

/// What an `ImageFile` holds.
pub struct ImageFileView {
    pub path: Seq<char>,
    pub size: u64,
}

impl View for ImageFile {
    type V = ImageFileView;

    open spec fn view(&self) -> ImageFileView {
        ImageFileView { path: self.path@, size: self.size }
    }
}

/// A selected root with the images found under it, in the order of the
/// walk.
#[derive(Debug, PartialEq, Eq)]
pub struct ScannedRoot {
    pub root: String,
    pub images: Vec<ImageFile>,
}

/// What a `ScannedRoot` holds.
pub struct ScannedRootView {
    pub root: Seq<char>,
    pub images: Seq<ImageFileView>,
}

impl View for ScannedRoot {
    type V = ScannedRootView;

    open spec fn view(&self) -> ScannedRootView {
        ScannedRootView {
            root: self.root@,
            images: Seq::new(self.images@.len(), |i: int| self.images@[i]@),
        }
    }
}

/// What a sequence of scanned roots holds.
pub open spec fn roots_view(roots: Seq<ScannedRoot>) -> Seq<ScannedRootView> {
    Seq::new(roots.len(), |i: int| roots[i]@)
}

/// One line of the listing shown before a batch runs.
#[derive(Debug, PartialEq, Eq)]
pub struct TargetImage {
    /// The image, relative to the parent of the selected root.
    pub path: String,
    /// Size of the image in bytes.
    pub size: u64,
}

/// What a `TargetImage` holds.
pub struct TargetImageView {
    pub path: Seq<char>,
    pub size: u64,
}

impl View for TargetImage {
    type V = TargetImageView;

    open spec fn view(&self) -> TargetImageView {
        TargetImageView { path: self.path@, size: self.size }
    }
}

impl Pathed for TargetImage {
    open spec fn path_text(&self) -> Seq<char> {
        self.path@
    }

    fn path_str(&self) -> (path: &str) {
        self.path.as_str()
    }
}

/// The view of a target, as a function value.
pub open spec fn target_view() -> spec_fn(TargetImage) -> TargetImageView {
    |target: TargetImage| target@
}

/// The key that targets are listed by: the path in lowercase.
pub open spec fn target_key() -> spec_fn(TargetImageView) -> Seq<char> {
    |target: TargetImageView| lowercase(target.path)
}

/// The targets of one root, in the order of its images.
pub open spec fn targets_of_root(scanned: ScannedRootView) -> Seq<TargetImageView> {
    Seq::new(
        scanned.images.len(),
        |i: int|
            TargetImageView {
                path: source_relative(scanned.images[i].path, scanned.root),
                size: scanned.images[i].size,
            },
    )
}

/// The targets of all roots one after the other, in the order of the roots.
pub open spec fn targets_of(roots: Seq<ScannedRootView>) -> Seq<TargetImageView>
    decreases roots.len(),
{
    if roots.len() == 0 {
        Seq::empty()
    } else {
        targets_of(roots.drop_last()) + targets_of_root(roots.last())
    }
}

/// Lists the images of a selection: each under its path relative to the
/// parent of its root, the list sorted by path without regard to case, ties
/// in the order in which the images were found.
pub fn get_target_images(roots: &Vec<ScannedRoot>) -> (targets: Vec<TargetImage>)
    ensures
        is_stable_sort_of(
            targets@.map_values(target_view()),
            targets_of(roots_view(roots@)),
            target_key(),
        ),
        targets@.len() == targets_of(roots_view(roots@)).len(),
{
    let ghost all = roots_view(roots@);
    let mut found: Vec<TargetImage> = Vec::new();
    let mut r: usize = 0;
    assert(all.take(0) =~= Seq::<ScannedRootView>::empty());
    assert(found@.map_values(target_view()) =~= targets_of(all.take(0)));
    while r < roots.len()
        invariant
            r <= roots.len(),
            all == roots_view(roots@),
            found@.map_values(target_view()) == targets_of(all.take(r as int)),
        decreases roots.len() - r,
    {
        let scanned = &roots[r];
        let ghost of_root = targets_of_root(scanned@);
        let ghost before = found@.map_values(target_view());
        let mut i: usize = 0;
        while i < scanned.images.len()
            invariant
                i <= scanned.images.len(),
                of_root == targets_of_root(scanned@),
                found@.map_values(target_view()) == before + of_root.take(i as int),
            decreases scanned.images.len() - i,
        {
            let image = &scanned.images[i];
            let target = TargetImage {
                path: source_relative_path(image.path.as_str(), scanned.root.as_str()),
                size: image.size,
            };
            let ghost listed = found@.map_values(target_view());
            found.push(target);
            proof {
                assert(found@.map_values(target_view()) =~= listed.push(target@));
                assert(scanned@.images[i as int] == image@);
                assert(of_root[i as int] == target@);
                assert(of_root.take(i + 1) =~= of_root.take(i as int).push(of_root[i as int]));
                assert(found@.map_values(target_view()) =~= before + of_root.take(i + 1));
            }
            i += 1;
        }
        proof {
            assert(of_root.take(scanned.images.len() as int) =~= of_root);
            assert(all.take(r + 1).drop_last() =~= all.take(r as int));
            assert(all.take(r + 1).last() == scanned@);
        }
        r += 1;
    }
    assert(all.take(roots.len() as int) =~= all);
    let ghost unsorted = found@;
    let targets = sort_by_path(found);
    proof {
        assert forall|x: TargetImage| #[trigger]
            target_key()(target_view()(x)) == path_key::<TargetImage>()(x) by {}
        lemma_sort_of_images(
            targets@,
            unsorted,
            target_view(),
            path_key::<TargetImage>(),
            target_key(),
        );
    }
    targets
}

/// Whether `entry` is the very directory that `root` lies in, so that
/// nothing of it is left when it is taken relative to that directory.
pub open spec fn is_parent_of_root(entry: Seq<char>, root: Seq<char>) -> bool {
    match model_of(root).parent() {
        Some(parent) => model_of(entry).starts_with(parent) && model_of(entry).parts.len()
            == parent.parts.len(),
        None => false,
    }
}

/// An image is listed under a path that names an image: taking the path
/// relative to the parent of the root keeps the file name, and with it the
/// extension. The one path of which nothing is kept is the parent of the
/// root itself.
pub proof fn lemma_listed_path_names_an_image(entry: Seq<char>, root: Seq<char>)
    requires
        is_image_path(entry),
        !is_parent_of_root(entry, root),
    ensures
        is_image_path(source_relative(entry, root)),
{
    let whole = model_of(entry);
    if let Some(parent) = model_of(root).parent() {
        if let Some(rest) = whole.strip_prefix(parent) {
            let n = parent.parts.len() as int;
            lemma_read_parts_are_clean(entry);
            assert forall|i: int| 0 <= i < rest.parts.len() implies is_clean_part(
                #[trigger] rest.parts[i],
            ) by {
                assert(rest.parts[i] == whole.parts[i + n]);
            }
            lemma_render_then_read(rest);
            assert(rest.parts.last() == whole.parts.last());
        }
    }
}

} // verus!
