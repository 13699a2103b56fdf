use lice::style::{
    get_language_style, style_c_like, style_dash, style_double_slash, style_hash,
};

#[test]
fn registry_table() {
    for ext in ["c", "h", "cpp", "hpp", "css"].iter() {
        assert_eq!(get_language_style(ext), Some(style_c_like()));
    }
    for ext in ["rs", "go", "java", "js", "ts"].iter() {
        assert_eq!(get_language_style(ext), Some(style_double_slash()));
    }
    for ext in ["py", "sh", "rb", "yaml", "toml"].iter() {
        assert_eq!(get_language_style(ext), Some(style_hash()));
    }
    for ext in ["lua", "hs", "sql"].iter() {
        assert_eq!(get_language_style(ext), Some(style_dash()));
    }
}

#[test]
fn unknown_extensions_are_unsupported() {
    for ext in ["", "txt", "C", "rs ", "pyc", "md"].iter() {
        assert_eq!(get_language_style(ext), None);
    }
}

#[test]
fn profile_texts() {
    let c = style_c_like();
    assert_eq!((c.start, c.prefix, c.end), ("/*\n", " * ", " */\n\n"));
    let h = style_hash();
    assert_eq!((h.start, h.prefix, h.end), ("", "# ", ""));
    assert_eq!(style_double_slash().prefix, "// ");
    assert_eq!(style_dash().prefix, "-- ");
}
