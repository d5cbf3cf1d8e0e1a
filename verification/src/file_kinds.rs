//! What a file's extension says: the editor language and the colour of
//! its name in the file tree.

use vstd::prelude::*;
use vstd::string::*;

use crate::text::{after_last, after_last_char, chars_are, chars_of};

verus! {

/// The extension as `rsplit('.').next()` reads it: the text after the
/// last `.`, or the whole name.
pub open spec fn dot_extension(name: Seq<char>) -> Seq<char> {
    after_last(name, '.')
}

/// The syntax-highlighting language for an extension (Rust by default).
pub open spec fn lang_for_ext(e: Seq<char>) -> Seq<char> {
    if e == "ts"@ || e == "tsx"@ {
        "typescript"@
    } else if e == "js"@ || e == "jsx"@ {
        "javascript"@
    } else if e == "py"@ {
        "python"@
    } else if e == "go"@ {
        "go"@
    } else if e == "rb"@ {
        "ruby"@
    } else if e == "c"@ || e == "h"@ {
        "c"@
    } else if e == "cpp"@ || e == "cc"@ || e == "cxx"@ || e == "hpp"@ {
        "cpp"@
    } else if e == "java"@ {
        "java"@
    } else if e == "cs"@ {
        "c_sharp"@
    } else if e == "swift"@ {
        "swift"@
    } else if e == "kt"@ || e == "kts"@ {
        "kotlin"@
    } else if e == "json"@ || e == "json5"@ {
        "json"@
    } else if e == "toml"@ {
        "toml"@
    } else if e == "yaml"@ || e == "yml"@ {
        "yaml"@
    } else if e == "html"@ || e == "htm"@ {
        "html"@
    } else if e == "css"@ {
        "css"@
    } else if e == "scss"@ {
        "scss"@
    } else if e == "md"@ || e == "markdown"@ {
        "markdown"@
    } else if e == "sh"@ || e == "bash"@ || e == "zsh"@ {
        "bash"@
    } else if e == "sql"@ {
        "sql"@
    } else if e == "lua"@ {
        "lua"@
    } else if e == "zig"@ {
        "zig"@
    } else if e == "ex"@ || e == "exs"@ {
        "elixir"@
    } else if e == "erl"@ || e == "hrl"@ {
        "erlang"@
    } else if e == "hs"@ {
        "haskell"@
    } else {
        "rust"@
    }
}

/// The editor language of a file, from the text after the last `.` of
/// its path; unknown extensions are highlighted as Rust.
pub fn lang_from_path(path: &str) -> (lang: String)
    ensures
        lang@ == lang_for_ext(dot_extension(path@)),
{
    let e = after_last_char(&chars_of(path), '.');
    let name = if chars_are(&e, "ts") || chars_are(&e, "tsx") {
        "typescript"
    } else if chars_are(&e, "js") || chars_are(&e, "jsx") {
        "javascript"
    } else if chars_are(&e, "py") {
        "python"
    } else if chars_are(&e, "go") {
        "go"
    } else if chars_are(&e, "rb") {
        "ruby"
    } else if chars_are(&e, "c") || chars_are(&e, "h") {
        "c"
    } else if chars_are(&e, "cpp") || chars_are(&e, "cc") || chars_are(&e, "cxx") || chars_are(&e, "hpp") {
        "cpp"
    } else if chars_are(&e, "java") {
        "java"
    } else if chars_are(&e, "cs") {
        "c_sharp"
    } else if chars_are(&e, "swift") {
        "swift"
    } else if chars_are(&e, "kt") || chars_are(&e, "kts") {
        "kotlin"
    } else if chars_are(&e, "json") || chars_are(&e, "json5") {
        "json"
    } else if chars_are(&e, "toml") {
        "toml"
    } else if chars_are(&e, "yaml") || chars_are(&e, "yml") {
        "yaml"
    } else if chars_are(&e, "html") || chars_are(&e, "htm") {
        "html"
    } else if chars_are(&e, "css") {
        "css"
    } else if chars_are(&e, "scss") {
        "scss"
    } else if chars_are(&e, "md") || chars_are(&e, "markdown") {
        "markdown"
    } else if chars_are(&e, "sh") || chars_are(&e, "bash") || chars_are(&e, "zsh") {
        "bash"
    } else if chars_are(&e, "sql") {
        "sql"
    } else if chars_are(&e, "lua") {
        "lua"
    } else if chars_are(&e, "zig") {
        "zig"
    } else if chars_are(&e, "ex") || chars_are(&e, "exs") {
        "elixir"
    } else if chars_are(&e, "erl") || chars_are(&e, "hrl") {
        "erlang"
    } else if chars_are(&e, "hs") {
        "haskell"
    } else {
        "rust"
    };
    name.to_owned()
}

/// The RGBA colour (0xRRGGBBAA) of a file name in the tree, by extension.
pub open spec fn ext_color(e: Seq<char>) -> u32 {
    if e == "rs"@ {
        0xdea5_84ff
    } else if e == "toml"@ || e == "yaml"@ || e == "yml"@ || e == "json"@ || e == "json5"@ {
        0x9ece_6aff
    } else if e == "ts"@ || e == "tsx"@ {
        0x7dce_faff
    } else if e == "js"@ || e == "jsx"@ {
        0xe0c0_46ff
    } else if e == "py"@ {
        0x569c_d6ff
    } else if e == "md"@ || e == "txt"@ || e == "rst"@ {
        0xbbbb_bbff
    } else if e == "css"@ || e == "scss"@ || e == "less"@ {
        0xce9f_c9ff
    } else if e == "html"@ || e == "htm"@ {
        0xe06c_75ff
    } else if e == "sh"@ || e == "bash"@ || e == "zsh"@ || e == "fish"@ {
        0x98c3_79ff
    } else if e == "sql"@ {
        0xe5c0_7bff
    } else if e == "lock"@ {
        0x6666_66ff
    } else {
        0xcccc_ccff
    }
}

/// The colour of a file name in the tree, from the text after its last `.`.
pub fn file_ext_color(name: &str) -> (c: u32)
    ensures
        c == ext_color(dot_extension(name@)),
{
    let e = after_last_char(&chars_of(name), '.');
    if chars_are(&e, "rs") {
        0xdea5_84ff
    } else if chars_are(&e, "toml") || chars_are(&e, "yaml") || chars_are(&e, "yml") || chars_are(&e, "json")
        || chars_are(&e, "json5") {
        0x9ece_6aff
    } else if chars_are(&e, "ts") || chars_are(&e, "tsx") {
        0x7dce_faff
    } else if chars_are(&e, "js") || chars_are(&e, "jsx") {
        0xe0c0_46ff
    } else if chars_are(&e, "py") {
        0x569c_d6ff
    } else if chars_are(&e, "md") || chars_are(&e, "txt") || chars_are(&e, "rst") {
        0xbbbb_bbff
    } else if chars_are(&e, "css") || chars_are(&e, "scss") || chars_are(&e, "less") {
        0xce9f_c9ff
    } else if chars_are(&e, "html") || chars_are(&e, "htm") {
        0xe06c_75ff
    } else if chars_are(&e, "sh") || chars_are(&e, "bash") || chars_are(&e, "zsh") || chars_are(&e, "fish") {
        0x98c3_79ff
    } else if chars_are(&e, "sql") {
        0xe5c0_7bff
    } else if chars_are(&e, "lock") {
        0x6666_66ff
    } else {
        0xcccc_ccff
    }
}

} // verus!
