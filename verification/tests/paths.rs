use image_optimizer::path::get_relative_path_str;
use image_optimizer::path::relative_to;
use image_optimizer::path::source_relative_path;
use image_optimizer::path::ParsedPath;
use image_optimizer::text::chars_of;
use image_optimizer::text::string_of;

fn text(chars: &[char]) -> String {
    chars.iter().collect()
}

fn parts(path: &ParsedPath) -> Vec<String> {
    path.parts.iter().map(|part| text(part)).collect()
}

#[test]
fn chars_and_strings_convert_both_ways() {
    assert_eq!(chars_of("añ/b"), vec!['a', 'ñ', '/', 'b']);
    assert_eq!(string_of(&vec!['o', 'p', 't']), "opt");
    assert_eq!(string_of(&Vec::new()), "");
}

#[test]
fn relative_path_keeps_what_follows_the_root() {
    assert_eq!(get_relative_path_str("/a/b/sub/img.png", "/a"), "b/sub/img.png");
    assert_eq!(get_relative_path_str("/a/b/sub/img.png", "/a/b/sub"), "img.png");
    assert_eq!(get_relative_path_str("pics/x.jpg", ""), "pics/x.jpg");
}

#[test]
fn relative_path_falls_back_to_the_path_itself() {
    assert_eq!(get_relative_path_str("/a/b/sub/img.png", "/x"), "/a/b/sub/img.png");
    assert_eq!(get_relative_path_str("a/b.png", "/a"), "a/b.png");
    assert_eq!(get_relative_path_str("/a//b.png", "/a/b.png/c"), "/a//b.png");
}

#[test]
fn relative_path_compares_whole_parts() {
    assert_eq!(get_relative_path_str("/abc/d.png", "/ab"), "/abc/d.png");
}

#[test]
fn parsing_skips_empty_and_dot_segments() {
    let p = ParsedPath::parse("/a//b/./c/");
    assert!(p.rooted);
    assert_eq!(parts(&p), vec!["a", "b", "c"]);
    assert_eq!(p.render(), "/a/b/c");
    let q = ParsedPath::parse("./x/..");
    assert!(!q.rooted);
    assert_eq!(parts(&q), vec!["x", ".."]);
    assert_eq!(q.render(), "x/..");
}

#[test]
fn parsing_the_empty_path_and_the_root() {
    let empty = ParsedPath::parse("");
    assert!(!empty.rooted);
    assert!(empty.parts.is_empty());
    assert_eq!(empty.render(), "");
    let root = ParsedPath::parse("/");
    assert!(root.rooted);
    assert!(root.parts.is_empty());
    assert_eq!(root.render(), "/");
}

#[test]
fn file_name_is_the_last_part() {
    assert_eq!(ParsedPath::parse("/a/b/photo.PNG").file_name(), Some(chars_of("photo.PNG")));
    assert_eq!(ParsedPath::parse("/a/b/").file_name(), Some(chars_of("b")));
    assert_eq!(ParsedPath::parse("/a/..").file_name(), None);
    assert_eq!(ParsedPath::parse("/").file_name(), None);
    assert_eq!(ParsedPath::parse("").file_name(), None);
}

#[test]
fn parent_drops_the_last_part() {
    let up = ParsedPath::parse("/a/b").parent().unwrap();
    assert_eq!(up.render(), "/a");
    let top = ParsedPath::parse("/a").parent().unwrap();
    assert_eq!(top.render(), "/");
    let none = ParsedPath::parse("pics").parent().unwrap();
    assert_eq!(none.render(), "");
    assert!(ParsedPath::parse("/").parent().is_none());
    assert!(ParsedPath::parse("").parent().is_none());
}

#[test]
fn strip_prefix_needs_the_same_kind_of_path() {
    let rooted = ParsedPath::parse("/a/b");
    let unrooted = ParsedPath::parse("a/b");
    assert!(rooted.strip_prefix(&ParsedPath::parse("a")).is_none());
    assert!(unrooted.strip_prefix(&ParsedPath::parse("/a")).is_none());
    assert!(rooted.strip_prefix(&ParsedPath::parse("")).is_none());
    let rest = rooted.strip_prefix(&ParsedPath::parse("/a")).unwrap();
    assert!(!rest.rooted);
    assert_eq!(rest.render(), "b");
    let nothing = rooted.strip_prefix(&ParsedPath::parse("/a/b")).unwrap();
    assert_eq!(nothing.render(), "");
    assert!(rooted.starts_with(&ParsedPath::parse("/")));
    assert!(!rooted.starts_with(&ParsedPath::parse("/a/b/c")));
}

#[test]
fn extension_follows_the_last_dot() {
    assert_eq!(ParsedPath::parse("/a/img.png").extension(), Some(chars_of("png")));
    assert_eq!(ParsedPath::parse("/a/archive.tar.JPG").extension(), Some(chars_of("JPG")));
    assert_eq!(ParsedPath::parse("/a/img.").extension(), Some(chars_of("")));
    assert_eq!(ParsedPath::parse("/a/img").extension(), None);
    assert_eq!(ParsedPath::parse("/a/.hidden").extension(), None);
    assert_eq!(ParsedPath::parse("/a.png/..").extension(), None);
    assert_eq!(ParsedPath::parse("/a/.hidden.png").extension(), Some(chars_of("png")));
}

#[test]
fn with_extension_replaces_or_adds() {
    let webp = chars_of("webp");
    assert_eq!(ParsedPath::parse("/o/a/img.png").with_extension(&webp).render(), "/o/a/img.webp");
    assert_eq!(ParsedPath::parse("o/img").with_extension(&webp).render(), "o/img.webp");
    assert_eq!(ParsedPath::parse("o/.hidden").with_extension(&webp).render(), "o/.hidden.webp");
    assert_eq!(ParsedPath::parse("o/a.b.jpeg").with_extension(&webp).render(), "o/a.b.webp");
    assert_eq!(ParsedPath::parse("o/img.").with_extension(&webp).render(), "o/img.webp");
    assert_eq!(ParsedPath::parse("o/..").with_extension(&webp).render(), "o/..");
    assert_eq!(ParsedPath::parse("/").with_extension(&webp).render(), "/");
}

#[test]
fn join_places_a_path_under_another() {
    let base = ParsedPath::parse("/out/opt");
    assert_eq!(base.join(&ParsedPath::parse("b/sub/img.png")).render(), "/out/opt/b/sub/img.png");
    assert_eq!(base.join(&ParsedPath::parse("")).render(), "/out/opt");
    assert_eq!(base.join(&ParsedPath::parse("/etc/x")).render(), "/etc/x");
    assert_eq!(ParsedPath::parse("").join(&ParsedPath::parse("x.png")).render(), "x.png");
}

#[test]
fn source_relative_path_starts_with_the_roots_own_name() {
    assert_eq!(source_relative_path("/a/b/sub/img.png", "/a/b"), "b/sub/img.png");
    assert_eq!(source_relative_path("/a/b/photo.PNG", "/a/b/photo.PNG"), "photo.PNG");
    assert_eq!(source_relative_path("pics/x.jpg", "pics"), "pics/x.jpg");
}

#[test]
fn source_relative_path_without_a_parent_is_the_path_itself() {
    assert_eq!(source_relative_path("/x.png", "/"), "/x.png");
    assert_eq!(source_relative_path("x.png", ""), "x.png");
    assert_eq!(source_relative_path("/other/x.png", "/a/b"), "/other/x.png");
}

#[test]
fn written_form_reads_back_as_the_same_path() {
    let samples = ["", "/", "a", "/a", "a/b", "/a//b/./c/", "./x/..", "..", "/..", "a.png/.hidden", "é/日本.JPG"];
    for sample in samples {
        let read = ParsedPath::parse(sample);
        let again = ParsedPath::parse(&read.render());
        assert_eq!(again, read, "{:?}", sample);
    }
}

#[test]
fn joined_path_taken_relative_again_is_the_path() {
    let bases = ["", "/", "/out/opt", "out/opt_2"];
    let relatives = ["", "x.png", "b/sub/img.png", "../x"];
    for base in bases {
        for relative in relatives {
            let base = ParsedPath::parse(base);
            let relative = ParsedPath::parse(relative);
            assert_eq!(base.join(&relative).strip_prefix(&base), Some(relative));
        }
    }
}

#[test]
fn relative_to_a_parsed_base() {
    let base = ParsedPath::parse("/out/opt");
    assert_eq!(relative_to("/out/opt/b/x.webp", &base), "b/x.webp");
    assert_eq!(relative_to("/out/opt", &base), "");
    assert_eq!(relative_to("/out/other//x", &base), "/out/other//x");
}
