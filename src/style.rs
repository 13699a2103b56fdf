//! The style registry: which comment syntax each file extension uses.

use vstd::prelude::*;
use crate::text::text_eq;

verus! {

/// How a language writes a comment header: a block opener and closer around
/// prefixed lines, or (with both empty) prefixed lines alone.
#[derive(Debug, Clone, Copy, PartialEq, Eq)]
pub struct LanguageProfile {
    pub start: &'static str,
    pub prefix: &'static str,
    pub end: &'static str,
}

/// The text of a comment profile.
pub struct CommentProfile {
    pub start: Seq<char>,
    pub prefix: Seq<char>,
    pub end: Seq<char>,
}

impl View for LanguageProfile {
    type V = CommentProfile;

    open spec fn view(&self) -> CommentProfile {
        CommentProfile { start: self.start@, prefix: self.prefix@, end: self.end@ }
    }
}

impl CommentProfile {
    /// A block style has an opener; a line style has none.
    pub open spec fn is_block(self) -> bool {
        self.start.len() > 0
    }
}

/// `/*` ... ` */` blocks with ` * ` before each line.
pub open spec fn c_like() -> CommentProfile {
    CommentProfile {
        start: seq!['/', '*', '\n'],
        prefix: seq![' ', '*', ' '],
        end: seq![' ', '*', '/', '\n', '\n'],
    }
}

/// Lines that start with `# `.
pub open spec fn hash_lines() -> CommentProfile {
    CommentProfile { start: Seq::empty(), prefix: seq!['#', ' '], end: Seq::empty() }
}

/// Lines that start with `// `.
pub open spec fn slash_lines() -> CommentProfile {
    CommentProfile { start: Seq::empty(), prefix: seq!['/', '/', ' '], end: Seq::empty() }
}

/// Lines that start with `-- `.
pub open spec fn dash_lines() -> CommentProfile {
    CommentProfile { start: Seq::empty(), prefix: seq!['-', '-', ' '], end: Seq::empty() }
}

/// The profile registered for a file extension, if any.
pub open spec fn style_for(ext: Seq<char>) -> Option<CommentProfile> {
    if ext == "c"@ || ext == "h"@ || ext == "cpp"@ || ext == "hpp"@ || ext == "css"@ {
        Some(c_like())
    } else if ext == "rs"@ || ext == "go"@ || ext == "java"@ || ext == "js"@ || ext == "ts"@ {
        Some(slash_lines())
    } else if ext == "py"@ || ext == "sh"@ || ext == "rb"@ || ext == "yaml"@ || ext == "toml"@ {
        Some(hash_lines())
    } else if ext == "lua"@ || ext == "hs"@ || ext == "sql"@ {
        Some(dash_lines())
    } else {
        None
    }
}

/// Whether `p` is one of the profiles that the registry hands out.
pub open spec fn is_registered(p: CommentProfile) -> bool {
    p == c_like() || p == hash_lines() || p == slash_lines() || p == dash_lines()
}

/// The block style of C and its relatives.
pub fn style_c_like() -> (r: LanguageProfile)
    ensures
        r@ == c_like(),
{
    let r = LanguageProfile { start: "/*\n", prefix: " * ", end: " */\n\n" };
    proof {
        reveal_strlit("/*\n");
        reveal_strlit(" * ");
        reveal_strlit(" */\n\n");
        assert(r@.start =~= c_like().start);
        assert(r@.prefix =~= c_like().prefix);
        assert(r@.end =~= c_like().end);
    }
    r
}

/// The `#` line style of Python, shell and Ruby.
pub fn style_hash() -> (r: LanguageProfile)
    ensures
        r@ == hash_lines(),
{
    let r = LanguageProfile { start: "", prefix: "# ", end: "" };
    proof {
        reveal_strlit("");
        reveal_strlit("# ");
        assert(r@.start =~= hash_lines().start);
        assert(r@.prefix =~= hash_lines().prefix);
        assert(r@.end =~= hash_lines().end);
    }
    r
}

/// The `//` line style of Rust, Go and Java.
pub fn style_double_slash() -> (r: LanguageProfile)
    ensures
        r@ == slash_lines(),
{
    let r = LanguageProfile { start: "", prefix: "// ", end: "" };
    proof {
        reveal_strlit("");
        reveal_strlit("// ");
        assert(r@.start =~= slash_lines().start);
        assert(r@.prefix =~= slash_lines().prefix);
        assert(r@.end =~= slash_lines().end);
    }
    r
}

/// The `--` line style of Lua, Haskell and SQL.
pub fn style_dash() -> (r: LanguageProfile)
    ensures
        r@ == dash_lines(),
{
    let r = LanguageProfile { start: "", prefix: "-- ", end: "" };
    proof {
        reveal_strlit("");
        reveal_strlit("-- ");
        assert(r@.start =~= dash_lines().start);
        assert(r@.prefix =~= dash_lines().prefix);
        assert(r@.end =~= dash_lines().end);
    }
    r
}

/// The comment profile for a file extension (without its dot), or `None`
/// where the extension is not supported.
pub fn get_language_style(ext: &str) -> (r: Option<LanguageProfile>)
    ensures
        match r {
            Some(p) => style_for(ext@) == Some(p@),
            None => style_for(ext@) is None,
        },
{
    if text_eq(ext, "c") || text_eq(ext, "h") || text_eq(ext, "cpp") || text_eq(ext, "hpp")
        || text_eq(ext, "css") {
        Some(style_c_like())
    } else if text_eq(ext, "rs") || text_eq(ext, "go") || text_eq(ext, "java") || text_eq(
        ext,
        "js",
    ) || text_eq(ext, "ts") {
        Some(style_double_slash())
    } else if text_eq(ext, "py") || text_eq(ext, "sh") || text_eq(ext, "rb") || text_eq(
        ext,
        "yaml",
    ) || text_eq(ext, "toml") {
        Some(style_hash())
    } else if text_eq(ext, "lua") || text_eq(ext, "hs") || text_eq(ext, "sql") {
        Some(style_dash())
    } else {
        None
    }
}

} // verus!
