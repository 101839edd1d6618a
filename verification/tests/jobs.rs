use sd::conf::{replace, ReplaceConf};
use sd::input::PathProbe;
use sd::jobs::{
    choose_sink, finish, process_sources, render_stdout, separator, Job, Outcome, Sink,
};
use sd::{Error, FailedJobs, Replacer, Source};

fn probe(path: &str, exists: bool) -> PathProbe {
    PathProbe { path: path.to_owned(), exists }
}

fn run(replacer: &Replacer, source: Source, input: &str, preview: bool) -> Job {
    let mut job = Job::new(source);
    job.run(replacer, Ok(input.as_bytes().to_vec()), preview);
    job
}

fn committed(job: &Job) -> Vec<u8> {
    job.to_commit().unwrap().1.clone()
}

fn file(path: &str) -> Source {
    Source::File(path.to_owned())
}

#[test]
fn in_place() {
    let replacer = Replacer::new("abc\\d+".into(), "".into(), false, None, 0).unwrap();
    let sources = vec![file("some/file")];
    assert_eq!(choose_sink(&sources, false), Sink::Files);
    let job = run(&replacer, file("some/file"), "abc123def", false);
    assert_eq!(job.to_commit().unwrap().0, "some/file");
    assert_eq!(committed(&job), b"def");
    assert!(finish(vec![job]).is_ok());
}

#[test]
fn in_place_with_empty_result_file() {
    let replacer = Replacer::new("a\\dc".into(), "".into(), false, None, 0).unwrap();
    let job = run(&replacer, file("f"), "a7c", false);
    assert_eq!(committed(&job), b"");
}

#[test]
fn replace_into_stdout() {
    let replacer = Replacer::new("abc\\d+".into(), "".into(), false, None, 0).unwrap();
    let sources = vec![file("f")];
    assert_eq!(choose_sink(&sources, true), Sink::Stdout);
    let job = run(&replacer, file("f"), "abc123def", true);
    assert!(job.to_commit().is_some());
    assert_eq!(render_stdout(&vec![job]), b"\x1b[32m\x1b[0mdef");
}

#[test]
fn stdin() {
    let replacer = Replacer::new("abc\\d+".into(), "".into(), false, None, 0).unwrap();
    let sources = Source::from_stdin();
    assert_eq!(sources, vec![Source::Stdin]);
    assert_eq!(choose_sink(&sources, false), Sink::Stdout);
    let job = run(&replacer, Source::Stdin, "abc123def", false);
    assert!(job.to_commit().is_none());
    assert_eq!(render_stdout(&vec![job]), b"def");
}

#[test]
fn fixed_strings_ambiguous_replace_is_fine() {
    let replacer = Replacer::new(
        "foo".into(),
        "inner_before $1fine inner_after".into(),
        true,
        None,
        0,
    )
    .unwrap();
    let job = run(&replacer, Source::Stdin, "outer_before foo outer_after", false);
    assert_eq!(
        render_stdout(&vec![job]),
        b"outer_before inner_before $1fine inner_after outer_after"
    );
}

#[test]
fn limit_replacements_file() {
    let replacer = Replacer::new("foo".into(), "bar".into(), false, None, 1).unwrap();
    let job = run(&replacer, file("f"), "foo\nfoo\nfoo", false);
    assert_eq!(committed(&job), b"bar\nfoo\nfoo");
}

#[test]
fn limit_replacements_file_preview() {
    let replacer = Replacer::new("foo".into(), "bar".into(), false, None, 1).unwrap();
    let job = run(&replacer, file("f"), "foo\nfoo\nfoo", true);
    assert_eq!(render_stdout(&vec![job]), b"\x1b[32mbar\x1b[0m\nfoo\nfoo");
}

#[test]
fn limit_replacements_stdin() {
    let replacer = Replacer::new("foo".into(), "bar".into(), false, None, 1).unwrap();
    let job = run(&replacer, Source::Stdin, "foo\nfoo\nfoo", false);
    assert_eq!(render_stdout(&vec![job]), b"bar\nfoo\nfoo");
}

#[test]
fn limit_replacements_stdin_preview() {
    let replacer = Replacer::new("foo".into(), "bar".into(), false, None, 1).unwrap();
    let job = run(&replacer, Source::Stdin, "foo\nfoo\nfoo", true);
    assert_eq!(render_stdout(&vec![job]), b"\x1b[32mbar\x1b[0m\nfoo\nfoo");
}

#[test]
fn test_process_sources_nonexistent_file() {
    let replacer = Replacer::new("abc".into(), "def".into(), false, None, 0).unwrap();
    let nonexistent = "/nonexistent/file.txt";
    let sources = Source::for_run(vec![nonexistent.to_owned()]);
    let read = sources
        .into_iter()
        .map(|source| (source, Err(Error::InvalidPath(nonexistent.to_owned()))))
        .collect();

    let jobs = process_sources(&replacer, read, false);
    assert_eq!(jobs.len(), 1);
    assert!(jobs[0].to_commit().is_none());
    match &jobs[0].outcome {
        Outcome::Failure(Error::InvalidPath(path)) => assert_eq!(path, nonexistent),
        _ => panic!("Expected InvalidPath error"),
    }
    let result = finish(jobs);
    assert!(result.is_err());
    assert!(Source::from_paths(vec![probe(nonexistent, false)]).is_err());
}

#[test]
fn sources_from_paths() {
    assert_eq!(Source::from_paths(vec![]).unwrap(), vec![]);
    assert_eq!(
        Source::from_paths(vec![probe("a", true), probe("b/c", true)]).unwrap(),
        vec![file("a"), file("b/c")]
    );
    let err = Source::from_paths(vec![
        probe("a", true),
        probe("b", false),
        probe("c", true),
        probe("d", false),
    ])
    .unwrap_err();
    assert!(matches!(&err, Error::InvalidPath(path) if path == "b"));
    assert_eq!(err.message(), "invalid path: b");
}

#[test]
fn labels_and_separators() {
    assert_eq!(Source::Stdin.display(), "STDIN");
    assert_eq!(file("a/b é").display(), "FILE a/b é");
    assert_eq!(separator(&Source::Stdin), b"----- STDIN -----\n");
    assert_eq!(separator(&file("a/b")), b"----- FILE a/b -----\n");
}

#[test]
fn where_the_results_go() {
    assert_eq!(choose_sink(&vec![], false), Sink::Files);
    assert_eq!(choose_sink(&vec![], true), Sink::Stdout);
    assert_eq!(choose_sink(&vec![Source::Stdin], false), Sink::Stdout);
    assert_eq!(choose_sink(&vec![file("a")], false), Sink::Files);
    assert_eq!(choose_sink(&vec![file("a"), file("b")], true), Sink::Stdout);
    assert_eq!(choose_sink(&vec![Source::Stdin, file("b")], false), Sink::Files);
}

#[test]
fn two_sources_in_preview_keep_their_order() {
    let replacer = Replacer::new("o+".into(), "0".into(), false, None, 0).unwrap();
    let jobs = vec![
        run(&replacer, file("second"), "foo\n", true),
        run(&replacer, file("first"), "boo", true),
    ];
    assert_eq!(
        String::from_utf8(render_stdout(&jobs)).unwrap(),
        "----- FILE second -----\nf\x1b[32m0\x1b[0m\n----- FILE first -----\nb\x1b[32m0\x1b[0m"
    );
    assert!(finish(jobs).is_ok());
}

#[test]
fn a_source_with_nothing_to_show_gets_no_separator() {
    let replacer = Replacer::new("o".into(), "0".into(), false, None, 0).unwrap();
    let mut failed = Job::new(file("c"));
    failed.run(&replacer, Err(Error::File("gone".into())), true);
    let jobs = vec![
        run(&replacer, file("a"), "xyz", true),
        run(&replacer, file("b"), "o", true),
        failed,
        Job::new(file("d")),
    ];
    assert_eq!(
        String::from_utf8(render_stdout(&jobs)).unwrap(),
        "----- FILE b -----\n\x1b[32m0\x1b[0m"
    );
    assert_eq!(render_stdout(&vec![]), b"");
}

#[test]
fn failures_are_gathered_in_order() {
    let replacer = Replacer::new("o".into(), "0".into(), false, None, 0).unwrap();
    let mut first = Job::new(file("a"));
    first.run(&replacer, Err(Error::InvalidPath("a".into())), false);
    let second = run(&replacer, file("b"), "o", false);
    let mut third = run(&replacer, file("c"), "o", false);
    assert_eq!(committed(&third), b"0");
    third.fail(Error::TempfilePersist("no room".into()));
    assert!(third.to_commit().is_none());
    let mut fourth = Job::new(Source::Stdin);
    fourth.run(&replacer, Err(Error::File("closed".into())), false);
    assert!(matches!(second.outcome, Outcome::Success(_)));

    let err = finish(vec![first, second, third, fourth]).unwrap_err();
    match &err {
        Error::FailedJobs(FailedJobs(list)) => {
            assert_eq!(list.len(), 3);
            assert_eq!(list[0].0, file("a"));
            assert_eq!(list[1].0, file("c"));
            assert_eq!(list[2].0, Source::Stdin);
        }
        other => panic!("not an aggregate: {:?}", other),
    }
    assert_eq!(
        err.message(),
        "Failed processing some inputs\n    a: invalid path: a\n    c: failed to move file: no room\n    STDIN: closed\n"
    );
    assert!(finish(vec![]).is_ok());
    assert!(finish(vec![Job::new(Source::Stdin)]).is_ok());
}

#[test]
fn messages() {
    assert_eq!(Error::Regex("bad".into()).message(), "invalid regex bad");
    assert_eq!(Error::File("denied".into()).message(), "denied");
    assert_eq!(Error::TempfilePersist("x".into()).message(), "failed to move file: x");
    assert_eq!(Error::InvalidPath("/".into()).message(), "invalid path: /");
    assert_eq!(FailedJobs(vec![]).message(), "Failed processing some inputs\n");
    let nested = Error::FailedJobs(FailedJobs(vec![(
        Source::Stdin,
        Error::FailedJobs(FailedJobs(vec![(file("p"), Error::File("q".into()))])),
    )]));
    assert_eq!(
        nested.message(),
        "Failed processing some inputs\n    STDIN: Failed processing some inputs\n    p: q\n\n"
    );
}

#[test]
fn settings() {
    let conf = ReplaceConf::default();
    assert_eq!(conf.source, Source::Stdin);
    assert!(!conf.preview && !conf.no_swap && !conf.literal_mode);
    assert!(conf.flags.is_none() && conf.replacements.is_none());
    let conf = ReplaceConf::builder().set_source(file("x")).build();
    assert_eq!(conf.source, file("x"));
    assert!(!conf.preview && !conf.no_swap && !conf.literal_mode);
    assert!(conf.flags.is_none() && conf.replacements.is_none());
}

#[test]
fn replacing_under_settings() {
    let conf = ReplaceConf::default();
    assert_eq!(replace("foo".into(), "bar".into(), &conf, b"foo bar foz").unwrap(), b"bar bar foz");
    assert_eq!(replace("x".into(), "bar".into(), &conf, b"foo").unwrap(), b"foo");
    let conf = ReplaceConf {
        literal_mode: true,
        flags: Some("i".into()),
        replacements: Some(1),
        ..ReplaceConf::default()
    };
    assert_eq!(replace(".".into(), "$1a".into(), &conf, b"a.b.C").unwrap(), b"a$1ab.C");
    let conf = ReplaceConf { flags: Some("i".into()), replacements: Some(0), ..ReplaceConf::default() };
    assert_eq!(replace("c".into(), "\\t".into(), &conf, b"cC").unwrap(), b"\t\t");
    let conf = ReplaceConf { preview: true, ..ReplaceConf::default() };
    assert_eq!(replace("b".into(), "B".into(), &conf, b"abc").unwrap(), b"a\x1b[32mB\x1b[0mc");
    assert!(matches!(
        replace("b".into(), "$1B".into(), &conf, b"abc"),
        Err(Error::InvalidReplaceCapture(_))
    ));
    assert!(matches!(replace("b)".into(), "B".into(), &conf, b"abc"), Err(Error::Regex(_))));
}

#[test]
fn options_make_the_replacer_and_the_settings() {
    let options = sd::conf::Options {
        preview: false,
        literal_mode: false,
        replacements: 1,
        flags: Some("i".into()),
        no_swap: true,
        find: "A".into(),
        replace_with: "\\x62".into(),
        files: vec!["f".into()],
    };
    let replacer = options.replacer().unwrap();
    assert_eq!(&*replacer.replace(b"aa"), b"ba");
    let conf = options.conf(file("f"));
    assert_eq!(conf.source, file("f"));
    assert!(!conf.preview && conf.no_swap && !conf.literal_mode);
    assert_eq!(conf.flags.as_deref(), Some("i"));
    assert_eq!(conf.replacements, Some(1));
    assert_eq!(replace("A".into(), "\\x62".into(), &conf, b"aa").unwrap(), b"ba");
    assert_eq!(Source::for_run(vec![]), vec![Source::Stdin]);
    assert_eq!(Source::for_run(vec!["f".into(), "g".into()]), vec![file("f"), file("g")]);
}

#[test]
fn every_source_is_worked_on_by_itself() {
    let replacer = Replacer::new("o".into(), "0".into(), false, None, 1).unwrap();
    let read = vec![
        (file("a"), Ok(b"foo".to_vec())),
        (file("b"), Err(Error::InvalidPath("b".into()))),
        (Source::Stdin, Ok(b"none".to_vec())),
        (file("c"), Ok(b"x".to_vec())),
    ];
    let jobs = process_sources(&replacer, read, false);
    assert_eq!(jobs.len(), 4);
    assert_eq!(jobs[0].source, file("a"));
    assert!(matches!(&jobs[0].outcome, Outcome::Success(out) if out == b"f0o"));
    assert!(matches!(&jobs[1].outcome, Outcome::Failure(Error::InvalidPath(p)) if p == "b"));
    assert_eq!(jobs[2].source, Source::Stdin);
    assert!(matches!(&jobs[2].outcome, Outcome::Success(out) if out == b"n0ne"));
    assert!(matches!(&jobs[3].outcome, Outcome::Success(out) if out == b"x"));
    assert_eq!(
        render_stdout(&jobs),
        b"----- FILE a -----\nf0o----- STDIN -----\nn0ne----- FILE c -----\nx"
    );
    assert!(process_sources(&replacer, vec![], true).is_empty());
}
