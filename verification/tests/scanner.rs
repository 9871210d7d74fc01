//! The source scanner and the dependency classification, on literal inputs.

use modou::{Json, external_normal_dependencies, imported_module_paths, normal_dependencies};

/// A dependency entry as `cargo metadata` reports it.
fn dependency(name: &str, source: Option<&str>, kind: Option<&str>) -> Json {
    let text = |value: Option<&str>| match value {
        Some(v) => Json::Str(v.to_string()),
        None => Json::Null,
    };
    Json::Object(vec![
        ("name".to_string(), Json::Str(name.to_string())),
        ("source".to_string(), text(source)),
        ("kind".to_string(), text(kind)),
    ])
}

/// A package declaring `dependencies`.
fn package(dependencies: Vec<Json>) -> Json {
    Json::Object(vec![("dependencies".to_string(), Json::Array(dependencies))])
}

#[test]
fn scanner_expands_groups_and_resolves_relative_imports() {
    let source = r#"
            // a line comment mentioning use crate::ignored::me;
            use crate::a::{b, c::d};
            use super::sibling::X;
            use self::inner::Y;
            use serde::Deserialize;
            use crate::z::*;
        "#;
    let imports = imported_module_paths(source, "crate::kernel");
    assert!(imports.contains(&"crate::a::b".to_string()), "{imports:?}");
    assert!(
        imports.contains(&"crate::a::c::d".to_string()),
        "{imports:?}"
    );
    // `super` from crate::kernel resolves to crate.
    assert!(
        imports.contains(&"crate::sibling::X".to_string()),
        "{imports:?}"
    );
    // `self` resolves against the current module.
    assert!(
        imports.contains(&"crate::kernel::inner::Y".to_string()),
        "{imports:?}"
    );
    // glob keeps the module prefix.
    assert!(imports.contains(&"crate::z".to_string()), "{imports:?}");
    // external first segment is ignored, and commented-out imports are not seen.
    assert!(!imports.iter().any(|p| p.contains("serde")), "{imports:?}");
    assert!(
        !imports.iter().any(|p| p.contains("ignored")),
        "{imports:?}"
    );
}

#[test]
fn scanner_ignores_comments_and_string_literals() {
    // A `//` inside a string must not eat a real `use` later on the same line.
    let url = r#"let u = "http://example.com"; use crate::real::A;"#;
    let imports = imported_module_paths(url, "crate::kernel");
    assert!(
        imports.contains(&"crate::real::A".to_string()),
        "{imports:?}"
    );

    // A `use …;` written inside a string is not a real import.
    let in_string = r#"let s = "use crate::ghost::Z;";"#;
    assert!(
        imported_module_paths(in_string, "crate::kernel").is_empty(),
        "a use inside a string must not be observed"
    );

    // A quote-bearing char literal must not open a spurious string and swallow code.
    let quote_char = r#"let q = '"'; use crate::real::B;"#;
    let imports = imported_module_paths(quote_char, "crate::kernel");
    assert!(
        imports.contains(&"crate::real::B".to_string()),
        "{imports:?}"
    );

    // A lifetime must not break use detection or produce a spurious path.
    let lifetime = "fn f<'a>(x: &'a str) {} use crate::a::b;";
    let imports = imported_module_paths(lifetime, "crate::kernel");
    assert_eq!(imports, vec!["crate::a::b".to_string()], "{imports:?}");
}

#[test]
fn external_classification_treats_any_non_null_source_as_external() {
    // A path/internal dep has a null `source`; registry, git, and alternative
    // (sparse) registry deps all have a non-null source and must be classified
    // external. The sparse case is the regression guard: a fixed `registry+`/
    // `git+` prefix list would silently pass an alternative `sparse+` registry.
    let registry = "registry+https://github.com/rust-lang/crates.io-index";
    let package = package(vec![
        dependency("internal", None, None),
        dependency("crates_io", Some(registry), None),
        dependency("git_dep", Some("git+https://example.com/x"), None),
        dependency("alt_sparse", Some("sparse+https://my.registry/index/"), None),
        dependency("a_dev", Some(registry), Some("dev")),
    ]);
    assert_eq!(
        external_normal_dependencies(&package),
        vec![
            "alt_sparse".to_string(),
            "crates_io".to_string(),
            "git_dep".to_string(),
        ],
        "every non-null-source normal dep is external (incl. a sparse alt \
         registry); the null-source internal dep and the dev dep are excluded",
    );
}

#[test]
fn normal_dependencies_include_path_dependencies_once_each() {
    let package = package(vec![
        dependency("zeta", None, None),
        dependency("alpha", Some("registry+https://example.com"), None),
        dependency("zeta", None, None),
        dependency("tool", None, Some("build")),
    ]);
    assert_eq!(
        normal_dependencies(&package),
        vec!["alpha".to_string(), "zeta".to_string()]
    );
    assert_eq!(external_normal_dependencies(&package), vec!["alpha".to_string()]);
}

#[test]
fn scanner_handles_nested_block_comments() {
    // Rust nests block comments. Commenting out code that itself contains a
    // `/* */` must not let the inner `*/` re-expose the rest as live code: a
    // `use` inside the (nested) comment must not be observed, while a real `use`
    // after the outer close still is.
    let source = r#"
            /*
            fn old() {
                /* tweak later */
                use crate::legacy::Thing;
            }
            */
            use crate::current::A;
        "#;
    let imports = imported_module_paths(source, "crate::kernel");
    assert!(
        imports.contains(&"crate::current::A".to_string()),
        "the real use after the nested comment must be observed: {imports:?}"
    );
    assert!(
        !imports.iter().any(|p| p.contains("legacy")),
        "a use inside a nested block comment must not be observed: {imports:?}"
    );
}

#[test]
fn scanner_preserves_non_ascii_module_paths() {
    // strip is UTF-8 safe: a non-ASCII module path survives stripping intact.
    let source = "use crate::café::Item;";
    let imports = imported_module_paths(source, "crate::kernel");
    assert!(
        imports.contains(&"crate::café::Item".to_string()),
        "{imports:?}"
    );
}

#[test]
fn scanner_ignores_raw_and_byte_strings() {
    // A `use …;` inside a raw string (any hash count) is not an import.
    for src in [
        r##"let s = r"use crate::ghost::Z;";"##,
        r##"let s = r#"use crate::ghost::Z;"#;"##,
        r##"let s = br#"use crate::ghost::Z;"#;"##,
        r#"let s = b"use crate::ghost::Z;";"#,
    ] {
        assert!(
            imported_module_paths(src, "crate::kernel").is_empty(),
            "a use inside a (raw/byte) string must not be observed: {src}"
        );
    }

    // A `//` and an inner `"#` inside a raw string must not eat a following use.
    // (Two outer hashes so the inner `"#` does not close it.)
    let tricky = r####"let s = r##"http://x "# inside"##; use crate::real::C;"####;
    let imports = imported_module_paths(tricky, "crate::kernel");
    assert!(
        imports.contains(&"crate::real::C".to_string()),
        "{imports:?}"
    );

    // `r` / `b` as ordinary identifiers (not raw-string prefixes) are unaffected.
    let idents = "let r = 1; let b = 2; use crate::real::D;";
    assert_eq!(
        imported_module_paths(idents, "crate::kernel"),
        vec!["crate::real::D".to_string()]
    );
}

#[test]
fn scanner_does_not_panic_on_odd_input() {
    // Truncated / malformed inputs must never panic (robustness over precision).
    for src in [
        "r#\"unterminated raw string",
        "\"unterminated string",
        "/* unterminated block",
        "'",
        "r",
        "use ",
        "use crate::",
        "",
    ] {
        let _ = imported_module_paths(src, "crate::kernel");
    }
}

#[test]
fn scanner_sorts_and_deduplicates_and_resolves_supers() {
    let source = "use crate::b; use crate::a; use crate::b::{self}; use super::super::x;";
    assert_eq!(
        imported_module_paths(source, "crate::one::two"),
        vec!["crate::a".to_string(), "crate::b".to_string(), "crate::x".to_string()]
    );
    // `super` as far up as the crate root and beyond resolves to nothing.
    assert!(imported_module_paths("use super::super;", "crate::k").is_empty());
    // An alias is dropped; the path is kept.
    assert_eq!(
        imported_module_paths("use crate::m::Thing as Other;", "crate"),
        vec!["crate::m::Thing".to_string()]
    );
}

#[test]
fn scanner_drops_an_escaped_quote_char_literal_whole() {
    assert_eq!(
        imported_module_paths("let q = ['\\'', '\"']; use crate::a::b;", "crate"),
        vec!["crate::a::b"]
    );
}

#[test]
fn scanner_drops_an_unterminated_block_comment_to_the_end() {
    assert!(imported_module_paths("/* é", "crate").is_empty());
    assert!(imported_module_paths("/* use crate::a::b;", "crate").is_empty());
}

#[test]
fn scanner_respects_unicode_identifiers_sharing_the_keyword_prefix() {
    assert_eq!(imported_module_paths("use貓 use crate::x;", "crate"), vec!["crate::x"]);
    assert!(imported_module_paths("let use貓 = 1;", "crate").is_empty());
}

#[test]
fn scanner_does_not_climb_above_the_crate_root() {
    assert!(imported_module_paths("use super::x;", "crate").is_empty());
    assert_eq!(imported_module_paths("use super::x;", "crate::a"), vec!["crate::x"]);
}

#[test]
fn scanner_attributes_a_use_to_its_enclosing_inline_module() {
    assert_eq!(
        imported_module_paths("mod inner { use super::x::Y; }", "crate::kernel"),
        vec!["crate::kernel::x::Y"]
    );
    assert_eq!(
        imported_module_paths("mod inner { use self::deep::Z; } use self::top::T;", "crate"),
        vec!["crate::inner::deep::Z", "crate::top::T"]
    );
}

#[test]
fn scanner_leaves_macro_bodies_out_of_scope() {
    assert_eq!(
        imported_module_paths(
            "macro_rules! make { () => { use crate::ghost::Thing; }; } use crate::real::A;",
            "crate"
        ),
        vec!["crate::real::A"]
    );
    assert_eq!(
        imported_module_paths("make! { use crate::ghost::Thing; } use crate::real::A;", "crate"),
        vec!["crate::real::A"]
    );
}

#[test]
fn a_bare_path_in_the_crate_root_names_a_declared_module() {
    assert_eq!(
        imported_module_paths("mod foo;\nuse foo::Bar;\nuse serde::Serialize;", "crate"),
        vec!["crate::foo::Bar"]
    );
    assert_eq!(
        imported_module_paths("pub mod foo { pub struct Bar; }\nuse foo::Bar;", "crate"),
        vec!["crate::foo::Bar"]
    );
    // In a submodule, and for a leading `::`, the path stays external.
    assert!(imported_module_paths("mod foo;\nuse foo::Bar;", "crate::a").is_empty());
    assert!(imported_module_paths("mod foo;\nuse ::foo::Bar;", "crate").is_empty());
    // Inside an inline module of the root, a bare path is that module's business.
    assert!(imported_module_paths("mod foo;\nmod inner { use foo::Bar; }", "crate").is_empty());
}

#[test]
fn raw_identifiers_are_read_as_plain_names() {
    assert_eq!(
        imported_module_paths("use crate::r#type::Kind;", "crate"),
        vec!["crate::type::Kind"]
    );
    assert_eq!(
        imported_module_paths("mod r#type;\nuse r#type::Kind;", "crate"),
        vec!["crate::type::Kind"]
    );
    assert_eq!(
        imported_module_paths("mod r#match { use super::x::Y; }", "crate::a"),
        vec!["crate::a::x::Y"]
    );
}

#[test]
fn ascii_punctuation_never_glues_a_raw_string_to_an_identifier() {
    assert_eq!(
        imported_module_paths("let s = r#\"use crate::a;\"#; use crate::b;", "crate"),
        vec!["crate::b"]
    );
    assert_eq!(
        imported_module_paths("f(r\"use crate::a;\"); use crate::b;", "crate"),
        vec!["crate::b"]
    );
}
