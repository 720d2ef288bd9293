use image_optimizer::batch::entry_records;
use image_optimizer::batch::get_path_from_result;
use image_optimizer::batch::optimize;
use image_optimizer::batch::progress_payload;
use image_optimizer::batch::EntryOutcome;
use image_optimizer::options::Options;
use image_optimizer::options::Quality;
use image_optimizer::outcome::Failure;
use image_optimizer::outcome::OptimizeError;
use image_optimizer::outcome::OptimizeResult;
use image_optimizer::outcome::OptimizeResultOrError;
use image_optimizer::outcome::ProgressEventPayload;
use image_optimizer::pipeline::ImageJob;
use image_optimizer::pipeline::Input;
use image_optimizer::pipeline::Step;
use image_optimizer::sorting::sort_by_path;

fn entry(root: &str, path: &str) -> Input {
    Input { input_root: root.to_string(), root_is_file: false, entry: path.to_string() }
}

fn result(path: &str, original: &str, final_size: u64) -> OptimizeResult {
    OptimizeResult {
        path: path.to_string(),
        original_path: original.to_string(),
        original_size: 100,
        final_size,
    }
}

fn success(path: &str, original: &str, final_size: u64) -> OptimizeResultOrError {
    OptimizeResultOrError::Result(result(path, original, final_size))
}

fn error(path: &str, message: &str) -> OptimizeResultOrError {
    OptimizeResultOrError::Error(OptimizeError {
        path: path.to_string(),
        error: message.to_string(),
    })
}

fn failure(frames: &[&str]) -> Failure {
    Failure { frames: frames.iter().map(|f| f.to_string()).collect() }
}

fn all_on() -> Options {
    Options {
        optimize_images: true,
        jpg_quality: Quality { bits: 80.0f32.to_bits() },
        generate_webp: true,
        webp_quality: Quality { bits: 75.0f32.to_bits() },
        webp_from_optimized: true,
        use_png8: false,
        png8_quality: 50,
    }
}

/// Runs the pipeline of one image with the given answers.
fn run(input: &Input, answers: Vec<Result<u64, Vec<String>>>) -> Result<Vec<OptimizeResult>, Failure> {
    let mut step = ImageJob::start(input, "/out/opt", &all_on());
    let mut answers = answers.into_iter();
    loop {
        match step {
            Step::Done(outcome) => return outcome,
            Step::Next(job, _) => step = job.advance(answers.next().unwrap()),
        }
    }
}

#[test]
fn results_become_result_records_in_order() {
    let records = entry_records(
        &entry("/a/b", "/a/b/x.png"),
        Ok(vec![result("b/x.png", "b/x.png", 70), result("b/x.webp", "b/x.png", 30)]),
    );
    assert_eq!(
        records,
        vec![success("b/x.png", "b/x.png", 70), success("b/x.webp", "b/x.png", 30)]
    );
}

#[test]
fn no_result_and_no_error_is_an_empty_group() {
    assert_eq!(entry_records(&entry("/a/b", "/a/b/x.png"), Ok(Vec::new())), Vec::new());
}

#[test]
fn failure_becomes_one_error_record() {
    let records = entry_records(
        &entry("/a/b", "/a/b/sub/x.png"),
        Err(failure(&["Failed to create directory \"/o/b/sub\"", "disk full"])),
    );
    assert_eq!(
        records,
        vec![error("b/sub/x.png", "Failed to create directory \"/o/b/sub\": disk full")]
    );
}

#[test]
fn error_for_a_root_without_parent_names_the_entry_as_given() {
    let records = entry_records(&entry("/", "/x.png"), Err(failure(&["Failed to get parent of \"/\""])));
    assert_eq!(records, vec![error("/x.png", "Failed to get parent of \"/\"")]);
}

#[test]
fn progress_names_the_image_like_an_error_would() {
    assert_eq!(
        progress_payload(&entry("/a/b", "/a/b/sub/x.png")),
        ProgressEventPayload { path: "b/sub/x.png".to_string() }
    );
    let single = Input {
        input_root: "/a/b/photo.PNG".to_string(),
        root_is_file: true,
        entry: "/a/b/photo.PNG".to_string(),
    };
    assert_eq!(progress_payload(&single), ProgressEventPayload { path: "photo.PNG".to_string() });
}

#[test]
fn sort_key_is_the_lowercase_original_path() {
    assert_eq!(get_path_from_result(&success("b/X.webp", "b/X.PNG", 1)), "b/x.png");
    assert_eq!(get_path_from_result(&error("B/Ünïcode.JPG", "no")), "b/ünïcode.jpg");
}

#[test]
fn one_failed_image_out_of_three_does_not_fail_the_batch() {
    let first = entry("/a/b", "/a/b/1.png");
    let second = entry("/a/b", "/a/b/2.png");
    let third = entry("/a/b", "/a/b/3.png");
    let ok = vec![Ok(0), Ok(100), Ok(0), Ok(70), Ok(0), Ok(30)];
    let broken = vec![Ok(0), Ok(100), Err(vec!["Failed to decode \"/a/b/2.png\"".to_string()])];
    let outcomes = vec![
        EntryOutcome { outcome: run(&first, ok.clone()), input: first },
        EntryOutcome { outcome: run(&second, broken), input: second },
        EntryOutcome { outcome: run(&third, ok), input: third },
    ];
    let report = optimize(outcomes);
    assert_eq!(
        report,
        vec![
            success("b/1.png", "b/1.png", 70),
            success("b/1.webp", "b/1.png", 30),
            error("b/2.png", "Failed to decode \"/a/b/2.png\""),
            success("b/3.png", "b/3.png", 70),
            success("b/3.webp", "b/3.png", 30),
        ]
    );
    let errors = report.iter().filter(|r| matches!(r, OptimizeResultOrError::Error(_))).count();
    assert_eq!(errors, 1);
}

#[test]
fn report_does_not_depend_on_the_order_of_arrival() {
    let make = |order: &[usize]| -> Vec<EntryOutcome> {
        order
            .iter()
            .map(|i| match i {
                0 => EntryOutcome {
                    input: entry("/r", "/r/b.png"),
                    outcome: Ok(vec![result("r/b.png", "r/b.png", 1), result("r/b.webp", "r/b.png", 2)]),
                },
                1 => EntryOutcome {
                    input: entry("/r", "/r/A.jpg"),
                    outcome: Ok(vec![result("r/A.jpg", "r/A.jpg", 3)]),
                },
                2 => EntryOutcome {
                    input: entry("/r", "/r/c.png"),
                    outcome: Err(failure(&["broken"])),
                },
                _ => EntryOutcome { input: entry("/r", "/r/d.png"), outcome: Ok(Vec::new()) },
            })
            .collect()
    };
    let expected = vec![
        success("r/A.jpg", "r/A.jpg", 3),
        success("r/b.png", "r/b.png", 1),
        success("r/b.webp", "r/b.png", 2),
        error("r/c.png", "broken"),
    ];
    assert_eq!(optimize(make(&[0, 1, 2, 3])), expected);
    assert_eq!(optimize(make(&[3, 2, 1, 0])), expected);
    assert_eq!(optimize(make(&[1, 3, 0, 2])), expected);
    assert_eq!(optimize(make(&[2, 0, 3, 1])), expected);
}

#[test]
fn equal_keys_stay_in_the_order_of_arrival() {
    let records = vec![
        error("X/a.png", "second key, first"),
        error("x/A.PNG", "second key, second"),
        error("a.png", "first key"),
        error("x/a.png", "second key, third"),
    ];
    assert_eq!(
        sort_by_path(records),
        vec![
            error("a.png", "first key"),
            error("X/a.png", "second key, first"),
            error("x/A.PNG", "second key, second"),
            error("x/a.png", "second key, third"),
        ]
    );
}

#[test]
fn sorting_a_sorted_report_changes_nothing() {
    let once = sort_by_path(vec![error("b", "1"), error("C", "2"), error("a", "3"), error("B", "4")]);
    let copy: Vec<OptimizeResultOrError> = once
        .iter()
        .map(|r| match r {
            OptimizeResultOrError::Error(e) => error(&e.path, &e.error),
            OptimizeResultOrError::Result(r) => success(&r.path, &r.original_path, r.final_size),
        })
        .collect();
    assert_eq!(sort_by_path(copy), once);
    assert_eq!(once, vec![error("a", "3"), error("b", "1"), error("B", "4"), error("C", "2")]);
}

#[test]
fn order_is_by_code_point_after_lowercasing() {
    let sorted = sort_by_path(vec![error("z", ""), error("é", ""), error("Z0", ""), error("_", ""), error("a", "")]);
    let paths: Vec<&str> = sorted
        .iter()
        .map(|r| match r {
            OptimizeResultOrError::Error(e) => e.path.as_str(),
            OptimizeResultOrError::Result(r) => r.original_path.as_str(),
        })
        .collect();
    assert_eq!(paths, vec!["_", "a", "z", "Z0", "é"]);
}

#[test]
fn empty_batch_gives_an_empty_report() {
    assert_eq!(optimize(Vec::new()), Vec::new());
}
