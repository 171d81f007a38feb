use kotlin_lsp::path::{
    ancestors_of, join, parent_of, relativize, same, starts_with, strip_prefix,
};
use kotlin_lsp::str_ext::StrExt;
use kotlin_lsp::text::{chars_of, lines_of, parse_u32, replaced, split, string_of};
use kotlin_lsp::util::is_test_file;
use std::path::Path;

const PATHS: [&str; 16] = [
    "", "/", "a", "a/", "a/b", "/a/b", "/a/b/", "/a//b", "/a/./b", "./a", "../a", "/..", "a/..",
    ".", "//a", "a/./",
];

#[test]
fn paths_agree_with_std() {
    for a in PATHS {
        let parent = Path::new(a).parent().map(|p| p.to_str().unwrap().to_string());
        assert_eq!(parent_of(a), parent, "parent of {a:?}");
        let above: Vec<String> =
            Path::new(a).ancestors().skip(1).map(|p| p.to_str().unwrap().to_string()).collect();
        assert_eq!(ancestors_of(a), above, "ancestors of {a:?}");
        for b in PATHS {
            assert_eq!(starts_with(a, b), Path::new(a).starts_with(b), "{a:?} below {b:?}");
            assert_eq!(same(a, b), Path::new(a) == Path::new(b), "{a:?} is {b:?}");
            assert_eq!(join(a, b), Path::new(a).join(b).to_str().unwrap(), "{a:?} and {b:?}");
            let stripped = Path::new(a).strip_prefix(b).ok().map(|p| p.to_str().unwrap().to_string());
            assert_eq!(strip_prefix(a, b), stripped, "{a:?} without {b:?}");
        }
    }
}

#[test]
fn relativize_leaves_other_paths_alone() {
    assert_eq!(relativize("/w/src/A.kt", "/w"), "src/A.kt");
    assert_eq!(relativize("/x/A.kt", "/w"), "/x/A.kt");
}

#[test]
fn a_joined_path_is_stripped_again() {
    for base in ["/", "/w", "/w/", "w/x", "."] {
        for rel in ["a", "a/b.kt", "..", "a/../b", ".git", "a//b"] {
            assert_eq!(strip_prefix(&join(base, rel), base).as_deref(), Some(rel));
        }
    }
}

#[test]
fn identifier_prefixes() {
    assert_eq!("foo.bar()".ident_prefix(), "foo");
    assert_eq!("foo.Bar.baz()".dotted_ident_prefix(), "foo.Bar.baz");
    assert_eq!("(x)".ident_prefix(), "");
}

#[test]
fn identifier_ends() {
    assert_eq!("com.example.Foo".last_segment(), "Foo");
    assert_eq!("Foo".last_segment(), "Foo");
    assert_eq!("foo.barBaz".last_ident_in(), "barBaz");
    assert_eq!("foo.bar(".last_ident_in(), "");
}

#[test]
fn case_of_the_first_letter() {
    assert!("Foo".starts_with_uppercase() && !"foo".starts_with_uppercase());
    assert!("foo".starts_with_lowercase() && !"_foo".starts_with_lowercase());
    assert!(!"".starts_with_uppercase());
    assert!("Äb".starts_with_uppercase());
}

#[test]
fn test_source_sets() {
    assert!(is_test_file("/app/src/test/kotlin/A.kt"));
    assert!(is_test_file("file:///app/src/androidTest/A.kt"));
    assert!(is_test_file("/lib/src/commonTest/A.kt") && is_test_file("/lib/src/iosTest/A.kt"));
    assert!(!is_test_file("/app/src/main/kotlin/A.kt"));
    assert!(!is_test_file("/app/test/A.kt"));
}

#[test]
fn declaration_prefixes() {
    assert_eq!("  val x = 1".decl_prefix(), "val x ");
    assert_eq!("@Inject @field:Named(f(1)) lateinit var x: X".decl_prefix(), "lateinit var x: X");
    assert_eq!("@Suppress(\"unused\") class Foo".decl_prefix(), "class Foo");
    assert_eq!("fun f() { x = 1 }".decl_prefix(), "fun f() { x = 1 }");
    assert_eq!("fun f() = run { x }".decl_prefix(), "fun f() ");
}

fn strings(parts: Vec<Vec<char>>) -> Vec<String> {
    parts.iter().map(|p| string_of(p)).collect()
}

#[test]
fn splitting_loses_nothing() {
    for text in ["", ".", "a.b", "a..b.", "com.example.Foo"] {
        let parts = strings(split(&chars_of(text), '.'));
        assert_eq!(parts, text.split('.').collect::<Vec<_>>());
        assert_eq!(parts.join("."), text);
    }
}

#[test]
fn lines_agree_with_std() {
    for text in ["", "a", "a\n", "a\r\nb", "\n\n", "a\r", "a\r\r\n"] {
        assert_eq!(strings(lines_of(&chars_of(text))), text.lines().collect::<Vec<_>>());
    }
}

#[test]
fn numbers_agree_with_std() {
    for text in ["", "0", "007", "+5", "+", "-1", "4294967295", "4294967296", "1a", " 1"] {
        assert_eq!(parse_u32(&chars_of(text)), text.parse::<u32>().ok(), "{text:?}");
    }
}

#[test]
fn replacing_agrees_with_std() {
    for text in ["", "aa", "aaa", "<WORKSPACE>/x/<WORKSPACE>", "baab"] {
        let out = replaced(&chars_of(text), &chars_of("aa"), &chars_of("xy"));
        assert_eq!(string_of(&out), text.replace("aa", "xy"));
    }
}
