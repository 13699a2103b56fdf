use lice::config::Config;
use lice::engine::LiceEngine;
use lice::header::{is_current, make_header, replace_header, Outcome};
use lice::style::{get_language_style, LanguageProfile};

fn engine(raw: &str) -> LiceEngine {
    let config = Config {
        license_file: Some("HEADER.txt".to_string()),
        excludes: Vec::new(),
        targets: vec![".".to_string()],
        jobs: None,
    };
    LiceEngine::new(config, raw.to_string())
}

fn style(ext: &str) -> LanguageProfile {
    get_language_style(ext).unwrap()
}

#[test]
fn python_header_and_directive_example() {
    let e = engine("Copyright X\nAll rights reserved");
    let header = e.make_header_for_style(&e.raw_license_text, style("py"));
    assert_eq!(header, "# Copyright X\n# All rights reserved\n\n");
    let out = e.apply_license("#!/usr/bin/env python\nprint(1)\n", style("py"));
    assert_eq!(
        out,
        Outcome::Inserted(
            "#!/usr/bin/env python\n# Copyright X\n# All rights reserved\n\nprint(1)\n".to_string()
        )
    );
}

#[test]
fn block_header_synthesis() {
    let h = make_header("Copyright X\nAll rights reserved", style("c"));
    assert_eq!(h, "/*\n * Copyright X\n * All rights reserved\n */\n\n");
}

#[test]
fn template_lines_are_right_trimmed_and_blank_lines_kept() {
    let h = make_header("A  \n\nB\t", style("rs"));
    assert_eq!(h, "// A\n// \n// B\n\n");
}

#[test]
fn crlf_template_lines() {
    let h = make_header("A\r\nB\r\n", style("lua"));
    assert_eq!(h, "-- A\n-- B\n\n");
}

#[test]
fn empty_template_gives_separator_only() {
    let h = make_header("", style("sh"));
    assert_eq!(h, "\n");
}

#[test]
fn second_pass_reports_current() {
    let e = engine("Copyright 2025 Someone\nLicensed under X");
    let inputs = [
        ("py", "#!/usr/bin/env python\nprint(1)\n"),
        ("py", "# Copyright 2024 Someone\n# Licensed under X\n\nimport os\n"),
        ("rs", "fn main() {}\n"),
        ("rs", ""),
        ("c", "int x;\n"),
        ("c", "/*\n * Old notice\n */\n\n\nint x;\n"),
        ("css", "#!/x\nbody {}\n"),
        ("css", "#!/x\n  /*\n * Old\n */\n\nbody {}\n"),
        ("sql", "-- old\n\n-- keep this comment\nSELECT 1;"),
        ("toml", "\n\n[package]\n"),
        ("py", "x = 1\n\n\n"),
    ];
    for (ext, content) in inputs.iter() {
        let s = style(ext);
        let first = e.apply_license(content, s);
        let written = match first {
            Outcome::Inserted(n) | Outcome::Updated(n) => n,
            other => panic!("unexpected outcome {:?}", other),
        };
        assert_eq!(e.apply_license(&written, s), Outcome::Current);
    }
}

#[test]
fn synthesized_header_is_current_for_every_extension() {
    let exts = [
        "c", "h", "cpp", "hpp", "css", "rs", "go", "java", "js", "ts", "py", "sh", "rb", "yaml",
        "toml", "lua", "hs", "sql",
    ];
    for raw in ["Copyright X\nAll rights reserved", "", "one line", "a\n\n  b  \n"].iter() {
        for ext in exts.iter() {
            let h = make_header(raw, style(ext));
            assert!(is_current(&h, &h), "{} {:?}", ext, raw);
        }
    }
}

#[test]
fn directive_kept_when_header_is_updated() {
    let e = engine("New notice");
    let out = e.apply_license("#!/bin/sh\n# Old notice\n\necho hi\n", style("sh"));
    assert_eq!(
        out,
        Outcome::Updated("#!/bin/sh\n# New notice\n\necho hi\n".to_string())
    );
}

#[test]
fn directive_kept_first_in_block_style() {
    let e = engine("N");
    let out = e.apply_license("#!/x\nint a;\n", style("c"));
    assert_eq!(out, Outcome::Inserted("#!/x\n/*\n * N\n */\n\nint a;\n".to_string()));
    let out = e.apply_license("#!/x\n\n/*\n * Old\n */\n\nint a;\n", style("c"));
    assert_eq!(out, Outcome::Updated("#!/x\n/*\n * N\n */\n\nint a;\n".to_string()));
    let out = e.apply_license("#!/x\n/*\n * Old\nint a;\n", style("c"));
    assert_eq!(out, Outcome::SkippedMalformed);
    assert_eq!(e.apply_license("#!/x\n/*\n * N\n */\n\nint a;\n", style("c")), Outcome::Current);
}

#[test]
fn unclosed_block_with_current_header_is_current() {
    let e = engine("N");
    assert_eq!(e.apply_license("/*\n * N\n */\nint x;\n", style("c")), Outcome::Current);
}

#[test]
fn unterminated_block_is_left_alone() {
    let e = engine("N");
    let content = "/*\n * Old notice\nint x;\n";
    assert_eq!(e.apply_license(content, style("c")), Outcome::SkippedMalformed);
    let h = make_header("N", style("c"));
    assert_eq!(replace_header(content, &h, style("c")), Outcome::SkippedMalformed);
}

#[test]
fn block_header_is_replaced() {
    let e = engine("New");
    let out = e.apply_license("\n/*\n * Old\n */\n\n\nint x;\n", style("cpp"));
    assert_eq!(out, Outcome::Updated("/*\n * New\n */\n\nint x;\n".to_string()));
}

#[test]
fn current_header_after_blank_lines() {
    let h = make_header("H", style("py"));
    assert!(is_current("\n\n# H\n\nx = 1\n", &h));
    assert!(is_current("#!/usr/bin/python\n\n# H\nx = 1\n", &h));
}

#[test]
fn stale_header_is_not_current() {
    let h = make_header("Copyright 2025", style("py"));
    assert!(!is_current("# Copyright 2024\n\nx = 1\n", &h));
    assert!(!is_current("x = 1\n# Copyright 2025\n", &h));
}

#[test]
fn directive_without_newline_is_not_skipped() {
    let h = make_header("H", style("py"));
    assert!(!is_current("#!/bin/sh", &h));
}

#[test]
fn line_header_scan_stops_after_one_blank_line() {
    let e = engine("New");
    let s = style("js");
    let out = e.replace_line_comment_header(
        "// Old\n// header\n\n// a comment\ncode();\n",
        "// New\n\n",
        s,
    );
    assert_eq!(out, "// New\n\n// a comment\ncode();\n");
}

#[test]
fn line_rebuild_joins_lines_again() {
    let e = engine("N");
    let s = style("py");
    let once = e.replace_line_comment_header("x = 1\n\n\n", "# N\n\n", s);
    assert_eq!(once, "# N\n\nx = 1\n\n");
    assert_eq!(e.replace_line_comment_header(&once, "# N\n\n", s), "# N\n\nx = 1\n");
    assert_eq!(e.apply_license(&once, s), Outcome::Current);
}

#[test]
fn line_header_scan_stops_at_code() {
    let e = engine("New");
    let out = e.replace_line_comment_header("// Old\ncode();", "// New\n\n", style("go"));
    assert_eq!(out, "// New\n\ncode();\n");
}

#[test]
fn line_style_reports_inserted_and_updated() {
    let h = make_header("N", style("rb"));
    assert_eq!(
        replace_header("puts 1\n", &h, style("rb")),
        Outcome::Inserted("# N\n\nputs 1\n".to_string())
    );
    assert_eq!(
        replace_header("# Old\n\nputs 1\n", &h, style("rb")),
        Outcome::Updated("# N\n\nputs 1\n".to_string())
    );
}

#[test]
fn crlf_file_is_rebuilt_with_newlines() {
    let e = engine("N");
    let out = e.apply_license("# Old\r\n\r\nx = 1\r\n", style("yaml"));
    assert_eq!(out, Outcome::Updated("# N\n\nx = 1\n".to_string()));
}

#[test]
fn empty_file_gets_header() {
    let e = engine("N");
    assert_eq!(e.apply_license("", style("hs")), Outcome::Inserted("-- N\n\n".to_string()));
}

#[test]
fn outcome_new_content() {
    assert_eq!(Outcome::Inserted("a".to_string()).new_content(), Some("a".to_string()));
    assert_eq!(Outcome::Updated("b".to_string()).new_content(), Some("b".to_string()));
    assert_eq!(Outcome::Current.new_content(), None);
    assert_eq!(Outcome::SkippedMalformed.new_content(), None);
}

#[test]
fn processing_order_does_not_change_contents() {
    let e = engine("N");
    let files = vec![
        ("a.py", "print(1)\n"),
        ("b.c", "/*\n * x\n */\n\nint b;\n"),
        ("c.rs", "// N\n\nfn c() {}\n"),
        ("d.c", "/*\n unterminated\n"),
    ];
    let run = |order: &[usize]| {
        let mut contents: Vec<String> = files.iter().map(|f| f.1.to_string()).collect();
        for &i in order {
            let ext = files[i].0.rsplit('.').next().unwrap();
            let out = e.apply_license(&contents[i], style(ext));
            if let Some(n) = out.new_content() {
                contents[i] = n;
            }
        }
        contents
    };
    let one = run(&[0, 1, 2, 3]);
    assert_eq!(one, run(&[3, 1, 0, 2]));
    assert_eq!(one, run(&[2, 2, 0, 3, 1, 0]));
    assert_eq!(one[0], "# N\n\nprint(1)\n");
    assert_eq!(one[1], "/*\n * N\n */\n\nint b;\n");
    assert_eq!(one[2], "// N\n\nfn c() {}\n");
    assert_eq!(one[3], "/*\n unterminated\n");
}
