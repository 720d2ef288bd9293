use image_optimizer::options::Codec;
use image_optimizer::options::Options;
use image_optimizer::options::Quality;
use image_optimizer::outcome::Failure;
use image_optimizer::outcome::OptimizeResult;
use image_optimizer::outcome::describe;
use image_optimizer::pipeline::describe_strip;
use image_optimizer::pipeline::locate_image;
use image_optimizer::pipeline::plan_image;
use image_optimizer::pipeline::render_relative;
use image_optimizer::pipeline::select_codec;
use image_optimizer::pipeline::Action;
use image_optimizer::pipeline::ImageJob;
use image_optimizer::pipeline::Input;
use image_optimizer::pipeline::Stage;
use image_optimizer::pipeline::Step;
use image_optimizer::pipeline::Transform;
use image_optimizer::path::ParsedPath;

fn quality(value: f32) -> Quality {
    Quality { bits: value.to_bits() }
}

fn options(optimize_images: bool, generate_webp: bool, webp_from_optimized: bool) -> Options {
    Options {
        optimize_images,
        jpg_quality: quality(80.0),
        generate_webp,
        webp_quality: quality(75.5),
        webp_from_optimized,
        use_png8: false,
        png8_quality: 60,
    }
}

fn under_dir(root: &str, entry: &str) -> Input {
    Input { input_root: root.to_string(), root_is_file: false, entry: entry.to_string() }
}

fn single_file(path: &str) -> Input {
    Input { input_root: path.to_string(), root_is_file: true, entry: path.to_string() }
}

fn failure(frames: &[&str]) -> Failure {
    Failure { frames: frames.iter().map(|f| f.to_string()).collect() }
}

fn cause(frames: &[&str]) -> Result<u64, Vec<String>> {
    Err(frames.iter().map(|f| f.to_string()).collect())
}

/// Hands the answers to the job one by one and returns the actions it asked
/// for and how it ended.
fn drive(
    mut step: Step,
    answers: Vec<Result<u64, Vec<String>>>,
) -> (Vec<Action>, Option<Result<Vec<OptimizeResult>, Failure>>) {
    let mut actions = Vec::new();
    let mut answers = answers.into_iter();
    loop {
        match step {
            Step::Done(outcome) => return (actions, Some(outcome)),
            Step::Next(job, action) => {
                actions.push(action);
                match answers.next() {
                    Some(answer) => step = job.advance(answer),
                    None => return (actions, None),
                }
            }
        }
    }
}

#[test]
fn single_file_root_maps_to_its_file_name() {
    let located = locate_image(&single_file("/a/b/photo.PNG")).unwrap();
    assert_eq!(located.render(), "photo.PNG");
    assert!(!located.rooted);
}

#[test]
fn directory_root_keeps_its_own_name() {
    let located = locate_image(&under_dir("/a/b", "/a/b/sub/img.png")).unwrap();
    assert_eq!(located.render(), "b/sub/img.png");
    let relative = locate_image(&under_dir("pics", "pics/x.jpg")).unwrap();
    assert_eq!(relative.render(), "pics/x.jpg");
    let trailing = locate_image(&under_dir("/a/b/", "/a/b//sub/./img.png")).unwrap();
    assert_eq!(trailing.render(), "b/sub/img.png");
}

#[test]
fn root_without_a_file_name_cannot_be_located() {
    assert_eq!(
        locate_image(&single_file("/")),
        Err(failure(&["Failed to get file name of \"/\""]))
    );
    assert_eq!(
        locate_image(&single_file("/a/..")),
        Err(failure(&["Failed to get file name of \"/a/..\""]))
    );
}

#[test]
fn root_without_a_parent_cannot_be_located() {
    assert_eq!(
        locate_image(&under_dir("/", "/x.png")),
        Err(failure(&["Failed to get parent of \"/\""]))
    );
    assert_eq!(locate_image(&under_dir("", "x.png")), Err(failure(&["Failed to get parent of \"\""])));
}

#[test]
fn entry_outside_the_roots_parent_cannot_be_located() {
    assert_eq!(
        locate_image(&under_dir("/a/b", "/x/y.png")),
        Err(failure(&["Failed to strip prefix of \"/a\" from \"/x/y.png\"", "prefix not found"]))
    );
    assert_eq!(
        locate_image(&under_dir("/a/b", "a/b/y.png")),
        Err(failure(&["Failed to strip prefix of \"/a\" from \"a/b/y.png\"", "prefix not found"]))
    );
}

#[test]
fn description_quotes_its_subject() {
    assert_eq!(describe("Failed to create directory ", "/out/opt/b"), "Failed to create directory \"/out/opt/b\"");
    assert_eq!(describe("", ""), "\"\"");
    assert_eq!(
        describe_strip("/a", "/x/y.png"),
        "Failed to strip prefix of \"/a\" from \"/x/y.png\""
    );
}

#[test]
fn codec_follows_the_lowercase_extension() {
    let plain = options(true, false, false);
    assert_eq!(select_codec("jpg", &plain), Some(Codec::Jpeg { quality: quality(80.0) }));
    assert_eq!(select_codec("jpeg", &plain), Some(Codec::Jpeg { quality: quality(80.0) }));
    assert_eq!(select_codec("png", &plain), Some(Codec::Png));
    let mut palette = plain;
    palette.use_png8 = true;
    assert_eq!(select_codec("png", &palette), Some(Codec::Png8 { palette_quality: 60 }));
    assert_eq!(select_codec("jpg", &palette), Some(Codec::Jpeg { quality: quality(80.0) }));
    assert_eq!(select_codec("PNG", &plain), None);
    assert_eq!(select_codec("gif", &plain), None);
    assert_eq!(select_codec("", &plain), None);
}

#[test]
fn plan_places_outputs_under_the_output_directory() {
    let plan =
        plan_image(&under_dir("/a/b", "/a/b/sub/img.png"), "/out/opt", &options(true, true, true))
            .unwrap();
    assert_eq!(plan.entry, "/a/b/sub/img.png");
    assert_eq!(plan.original_path, "b/sub/img.png");
    assert_eq!(plan.output_parent, "/out/opt/b/sub");
    assert_eq!(plan.blocked, None);
    assert_eq!(
        plan.steps,
        vec![
            Transform {
                codec: Codec::Png,
                input: "/a/b/sub/img.png".to_string(),
                output: "/out/opt/b/sub/img.png".to_string(),
                path: "b/sub/img.png".to_string(),
            },
            Transform {
                codec: Codec::Webp { quality: quality(75.5) },
                input: "/out/opt/b/sub/img.png".to_string(),
                output: "/out/opt/b/sub/img.webp".to_string(),
                path: "b/sub/img.webp".to_string(),
            },
        ]
    );
}

#[test]
fn plan_for_a_single_file_writes_directly_under_the_output_directory() {
    let plan =
        plan_image(&single_file("/a/b/photo.PNG"), "/out/opt_3/", &options(true, false, false))
            .unwrap();
    assert_eq!(plan.original_path, "photo.PNG");
    assert_eq!(plan.output_parent, "/out/opt_3");
    assert_eq!(plan.steps.len(), 1);
    assert_eq!(plan.steps[0].codec, Codec::Png);
    assert_eq!(plan.steps[0].output, "/out/opt_3/photo.PNG");
    assert_eq!(plan.steps[0].path, "photo.PNG");
}

#[test]
fn webp_reads_the_original_unless_told_otherwise() {
    let input = under_dir("/a/b", "/a/b/c.JPG");
    let from_original = plan_image(&input, "/o", &options(true, true, false)).unwrap();
    assert_eq!(from_original.steps[1].input, "/a/b/c.JPG");
    let without_primary = plan_image(&input, "/o", &options(false, true, true)).unwrap();
    assert_eq!(without_primary.steps.len(), 1);
    assert_eq!(without_primary.steps[0].input, "/a/b/c.JPG");
    assert_eq!(without_primary.steps[0].output, "/o/b/c.webp");
    assert_eq!(without_primary.steps[0].path, "b/c.webp");
    let from_optimized = plan_image(&input, "/o", &options(true, true, true)).unwrap();
    assert_eq!(from_optimized.steps[0].codec, Codec::Jpeg { quality: quality(80.0) });
    assert_eq!(from_optimized.steps[1].input, from_optimized.steps[0].output);
    assert_eq!(from_optimized.steps[1].input, "/o/b/c.JPG");
}

#[test]
fn plan_without_an_output_parent_fails() {
    assert_eq!(
        plan_image(&under_dir("/a/b", "/a"), "", &options(true, true, true)),
        Err(failure(&["Failed to get parent of \"\""]))
    );
}

#[test]
fn plan_passes_location_failures_on() {
    assert_eq!(
        plan_image(&under_dir("/", "/x.png"), "/out/opt", &options(true, false, false)),
        Err(failure(&["Failed to get parent of \"/\""]))
    );
}

#[test]
fn unsupported_extension_blocks_the_primary_transform() {
    let plan =
        plan_image(&under_dir("/a/b", "/a/b/anim.GIF"), "/o", &options(true, true, false)).unwrap();
    assert_eq!(plan.blocked, Some(failure(&["Unsupported extension: \"gif\""])));
    let bare = plan_image(&under_dir("/a/b", "/a/b/noext"), "/o", &options(true, false, false))
        .unwrap();
    assert_eq!(bare.blocked, Some(failure(&["Failed to get extension of \"/a/b/noext\""])));
    let unasked =
        plan_image(&under_dir("/a/b", "/a/b/anim.GIF"), "/o", &options(false, true, false)).unwrap();
    assert_eq!(unasked.blocked, None);
}

#[test]
fn nothing_enabled_is_a_no_op() {
    let start = ImageJob::start(&under_dir("/a/b", "/a/b/x.png"), "/o/opt", &options(false, false, false));
    let (actions, outcome) = drive(start, vec![Ok(0), Ok(1234)]);
    assert_eq!(
        actions,
        vec![
            Action::CreateDir { path: "/o/opt/b".to_string() },
            Action::Measure { path: "/a/b/x.png".to_string() },
        ]
    );
    assert_eq!(outcome, Some(Ok(Vec::new())));
}

#[test]
fn nothing_enabled_ignores_the_extension() {
    let start = ImageJob::start(&under_dir("/a/b", "/a/b/x.gif"), "/o/opt", &options(false, false, true));
    let (_, outcome) = drive(start, vec![Ok(0), Ok(1)]);
    assert_eq!(outcome, Some(Ok(Vec::new())));
}

#[test]
fn both_transforms_run_in_order_and_report_measured_sizes() {
    let start = ImageJob::start(&under_dir("/a/b", "/a/b/s/x.png"), "/o/opt", &options(true, true, true));
    let (actions, outcome) = drive(start, vec![Ok(0), Ok(1000), Ok(0), Ok(700), Ok(0), Ok(300)]);
    assert_eq!(
        actions,
        vec![
            Action::CreateDir { path: "/o/opt/b/s".to_string() },
            Action::Measure { path: "/a/b/s/x.png".to_string() },
            Action::Encode {
                codec: Codec::Png,
                input: "/a/b/s/x.png".to_string(),
                output: "/o/opt/b/s/x.png".to_string(),
            },
            Action::Measure { path: "/o/opt/b/s/x.png".to_string() },
            Action::Encode {
                codec: Codec::Webp { quality: quality(75.5) },
                input: "/o/opt/b/s/x.png".to_string(),
                output: "/o/opt/b/s/x.webp".to_string(),
            },
            Action::Measure { path: "/o/opt/b/s/x.webp".to_string() },
        ]
    );
    assert_eq!(
        outcome,
        Some(Ok(vec![
            OptimizeResult {
                path: "b/s/x.png".to_string(),
                original_path: "b/s/x.png".to_string(),
                original_size: 1000,
                final_size: 700,
            },
            OptimizeResult {
                path: "b/s/x.webp".to_string(),
                original_path: "b/s/x.png".to_string(),
                original_size: 1000,
                final_size: 300,
            },
        ]))
    );
}

#[test]
fn webp_encoder_is_given_the_primary_output() {
    let start = ImageJob::start(&single_file("/a/b/photo.jpeg"), "/o/opt", &options(true, true, true));
    let (actions, _) = drive(start, vec![Ok(0), Ok(10), Ok(0), Ok(5)]);
    let primary_output = match &actions[2] {
        Action::Encode { codec: Codec::Jpeg { .. }, output, .. } => output.clone(),
        other => panic!("unexpected action {:?}", other),
    };
    match &actions[4] {
        Action::Encode { codec: Codec::Webp { .. }, input, .. } => {
            assert_eq!(input, &primary_output);
            assert_ne!(input, "/a/b/photo.jpeg");
        }
        other => panic!("unexpected action {:?}", other),
    }
}

#[test]
fn only_the_primary_transform() {
    let mut chosen = options(true, false, false);
    chosen.use_png8 = true;
    let start = ImageJob::start(&single_file("/a/p.PNG"), "/o/opt", &chosen);
    let (actions, outcome) = drive(start, vec![Ok(0), Ok(50), Ok(0), Ok(20)]);
    assert_eq!(actions.len(), 4);
    assert_eq!(
        actions[2],
        Action::Encode {
            codec: Codec::Png8 { palette_quality: 60 },
            input: "/a/p.PNG".to_string(),
            output: "/o/opt/p.PNG".to_string(),
        }
    );
    assert_eq!(
        outcome,
        Some(Ok(vec![OptimizeResult {
            path: "p.PNG".to_string(),
            original_path: "p.PNG".to_string(),
            original_size: 50,
            final_size: 20,
        }]))
    );
}

#[test]
fn directory_that_cannot_be_created_fails_the_image() {
    let start = ImageJob::start(&under_dir("/a/b", "/a/b/x.png"), "/o/opt", &options(true, true, true));
    let (actions, outcome) = drive(start, vec![cause(&["Permission denied (os error 13)"])]);
    assert_eq!(actions.len(), 1);
    assert_eq!(
        outcome,
        Some(Err(failure(&[
            "Failed to create directory \"/o/opt/b\"",
            "Permission denied (os error 13)"
        ])))
    );
}

#[test]
fn original_that_cannot_be_measured_fails_the_image() {
    let start = ImageJob::start(&under_dir("/a/b", "/a/b/x.png"), "/o/opt", &options(true, false, false));
    let (actions, outcome) = drive(start, vec![Ok(0), cause(&["gone"])]);
    assert_eq!(actions.len(), 2);
    assert_eq!(outcome, Some(Err(failure(&["Failed to get metadata of \"/a/b/x.png\"", "gone"]))));
}

#[test]
fn unsupported_extension_is_an_ordinary_failure_after_the_original_was_measured() {
    let start = ImageJob::start(&under_dir("/a/b", "/a/b/x.BMP"), "/o/opt", &options(true, true, false));
    let (actions, outcome) = drive(start, vec![Ok(0), Ok(10), Ok(0)]);
    assert_eq!(actions.len(), 2);
    assert_eq!(outcome, Some(Err(failure(&["Unsupported extension: \"bmp\""]))));
}

#[test]
fn encoder_failure_is_reported_as_it_came() {
    let start = ImageJob::start(&under_dir("/a/b", "/a/b/x.jpg"), "/o/opt", &options(true, true, true));
    let (actions, outcome) =
        drive(start, vec![Ok(0), Ok(10), cause(&["Failed to open \"/a/b/x.jpg\"", "bad marker"])]);
    assert_eq!(actions.len(), 3);
    assert_eq!(outcome, Some(Err(failure(&["Failed to open \"/a/b/x.jpg\"", "bad marker"]))));
}

#[test]
fn output_that_cannot_be_measured_fails_the_image() {
    let start = ImageJob::start(&under_dir("/a/b", "/a/b/x.jpg"), "/o/opt", &options(true, false, false));
    let (_, outcome) = drive(start, vec![Ok(0), Ok(10), Ok(0), cause(&["missing"])]);
    assert_eq!(
        outcome,
        Some(Err(failure(&["Failed to get metadata of \"/o/opt/b/x.jpg\"", "missing"])))
    );
}

#[test]
fn secondary_failure_discards_the_primary_result() {
    let start = ImageJob::start(&under_dir("/a/b", "/a/b/x.png"), "/o/opt", &options(true, true, false));
    let (actions, outcome) =
        drive(start, vec![Ok(0), Ok(10), Ok(0), Ok(8), cause(&["Failed to create encoder from image"])]);
    assert_eq!(actions.len(), 5);
    assert_eq!(outcome, Some(Err(failure(&["Failed to create encoder from image"]))));
    let again = ImageJob::start(&under_dir("/a/b", "/a/b/x.png"), "/o/opt", &options(true, true, false));
    let (_, late) = drive(again, vec![Ok(0), Ok(10), Ok(0), Ok(8), Ok(0), cause(&["vanished"])]);
    assert_eq!(
        late,
        Some(Err(failure(&["Failed to get metadata of \"/o/opt/b/x.webp\"", "vanished"])))
    );
}

#[test]
fn job_that_cannot_be_placed_ends_at_once() {
    let start = ImageJob::start(&single_file("/"), "/o/opt", &options(true, true, true));
    assert_eq!(start, Step::Done(Err(failure(&["Failed to get file name of \"/\""]))));
}

#[test]
fn job_keeps_track_of_its_stage() {
    let start = ImageJob::start(&single_file("/a/x.png"), "/o", &options(true, false, false));
    let job = match start {
        Step::Next(job, _) => job,
        Step::Done(_) => panic!("the job ended early"),
    };
    assert_eq!(job.stage, Stage::CreatingDir);
    let job = match job.advance(Ok(0)) {
        Step::Next(job, _) => job,
        Step::Done(_) => panic!("the job ended early"),
    };
    assert_eq!(job.stage, Stage::MeasuringEntry);
    let job = match job.advance(Ok(9)) {
        Step::Next(job, _) => job,
        Step::Done(_) => panic!("the job ended early"),
    };
    assert_eq!(job.stage, Stage::Encoding(0));
    assert_eq!(job.original_size, 9);
    let job = match job.advance(Ok(0)) {
        Step::Next(job, _) => job,
        Step::Done(_) => panic!("the job ended early"),
    };
    assert_eq!(job.stage, Stage::Measuring(0));
    assert!(job.results.is_empty());
}

#[test]
fn failure_message_joins_the_chain() {
    assert_eq!(failure(&["outer", "middle", "inner"]).message(), "outer: middle: inner");
    assert_eq!(failure(&["alone"]).message(), "alone");
    assert_eq!(failure(&[]).message(), "");
}

#[test]
fn path_outside_the_base_is_written_whole() {
    let base = ParsedPath::parse("/out/opt");
    assert_eq!(render_relative(&ParsedPath::parse("/out/opt/b//x.png"), &base), "b/x.png");
    assert_eq!(render_relative(&ParsedPath::parse("/out//opt.webp"), &base), "/out/opt.webp");
}

#[test]
fn image_that_is_the_parent_of_its_root_has_no_path_of_its_own() {
    let plan = plan_image(&under_dir("/a/b", "/a"), "/out/opt", &options(true, true, false)).unwrap();
    assert_eq!(plan.original_path, "");
    assert_eq!(plan.output_parent, "/out");
    assert_eq!(plan.blocked, Some(failure(&["Failed to get extension of \"/a\""])));
    assert_eq!(plan.steps.len(), 1);
    assert_eq!(plan.steps[0].output, "/out/opt.webp");
    assert_eq!(plan.steps[0].path, "/out/opt.webp");
}
