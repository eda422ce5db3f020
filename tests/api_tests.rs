use languages::{from_codemirror_mode, from_extension, from_name, Language, Languages};

fn strings(items: &[&str]) -> Option<Vec<String>> {
    Some(items.iter().map(|s| s.to_string()).collect())
}

fn text(s: &str) -> Option<String> {
    Some(s.to_string())
}

fn linguist() -> Languages {
    let records = vec![
        Language {
            name: "C".to_string(),
            language_type: "programming".to_string(),
            color: text("#555555"),
            aliases: None,
            extensions: strings(&[".c", ".cats", ".h", ".idc"]),
            interpreters: strings(&["tcc"]),
            group: None,
            tm_scope: text("source.c"),
            ace_mode: text("c_cpp"),
            codemirror_mode: text("clike"),
            codemirror_mime_type: text("text/x-csrc"),
            language_id: 41,
        },
        Language {
            name: "C++".to_string(),
            language_type: "programming".to_string(),
            color: text("#f34b7d"),
            aliases: strings(&["cpp"]),
            extensions: strings(&[
                ".cpp", ".c++", ".cc", ".cp", ".cppm", ".cxx", ".h", ".h++", ".hh", ".hpp",
                ".hxx", ".inc", ".inl", ".ino", ".ipp", ".ixx", ".re", ".tcc", ".tpp", ".txx",
            ]),
            interpreters: None,
            group: None,
            tm_scope: text("source.c++"),
            ace_mode: text("c_cpp"),
            codemirror_mode: text("clike"),
            codemirror_mime_type: text("text/x-c++src"),
            language_id: 43,
        },
        Language {
            name: "JSON".to_string(),
            language_type: "data".to_string(),
            color: text("#292929"),
            aliases: strings(&["geojson", "jsonl", "topojson"]),
            extensions: strings(&[".json", ".4DForm", ".4DProject", ".avsc", ".geojson", ".gltf"]),
            interpreters: None,
            group: None,
            tm_scope: text("source.json"),
            ace_mode: text("json"),
            codemirror_mode: text("javascript"),
            codemirror_mime_type: text("application/json"),
            language_id: 174,
        },
        Language {
            name: "JavaScript".to_string(),
            language_type: "programming".to_string(),
            color: text("#f1e05a"),
            aliases: strings(&["js", "node"]),
            extensions: strings(&[".js", "._js", ".cjs", ".es6", ".jsm", ".mjs"]),
            interpreters: strings(&["node", "nodejs", "qjs"]),
            group: None,
            tm_scope: text("source.js"),
            ace_mode: text("javascript"),
            codemirror_mode: text("javascript"),
            codemirror_mime_type: text("text/javascript"),
            language_id: 183,
        },
        Language {
            name: "Python".to_string(),
            language_type: "programming".to_string(),
            color: text("#3572A5"),
            aliases: strings(&["python3", "rusthon"]),
            extensions: strings(&[".py", ".cgi", ".gyp", ".pyi", ".pyw", ".wsgi"]),
            interpreters: strings(&["python", "python2", "python3", "py"]),
            group: None,
            tm_scope: text("source.python"),
            ace_mode: text("python"),
            codemirror_mode: text("python"),
            codemirror_mime_type: text("text/x-python"),
            language_id: 303,
        },
        Language {
            name: "Rust".to_string(),
            language_type: "programming".to_string(),
            color: text("#dea584"),
            aliases: strings(&["rs"]),
            extensions: strings(&[".rs", ".rs.in"]),
            interpreters: strings(&["rust-script"]),
            group: None,
            tm_scope: text("source.rust"),
            ace_mode: text("rust"),
            codemirror_mode: text("rust"),
            codemirror_mime_type: text("text/x-rustsrc"),
            language_id: 327,
        },
        Language {
            name: "TypeScript".to_string(),
            language_type: "programming".to_string(),
            color: text("#3178c6"),
            aliases: strings(&["ts"]),
            extensions: strings(&[".ts", ".cts", ".mts"]),
            interpreters: strings(&["deno", "ts-node"]),
            group: None,
            tm_scope: text("source.ts"),
            ace_mode: text("typescript"),
            codemirror_mode: text("javascript"),
            codemirror_mime_type: text("application/typescript"),
            language_id: 378,
        },
    ];
    Languages::new(records).expect("the dataset is well formed")
}

#[test]
fn test_from_name_basic() {
    let langs = linguist();
    let lang = from_name(&langs, "Rust").expect("Could not find Rust");
    assert_eq!(lang.name, "Rust");
    assert_eq!(lang.language_type, "programming");
}

#[test]
fn test_from_name_case_insensitive() {
    let langs = linguist();
    let lang1 = from_name(&langs, "python").expect("Could not find python");
    let lang2 = from_name(&langs, "Python").expect("Could not find Python");
    let lang3 = from_name(&langs, "PYTHON").expect("Could not find PYTHON");
    assert_eq!(lang1.language_id, lang2.language_id);
    assert_eq!(lang2.language_id, lang3.language_id);
}

#[test]
fn test_from_name_alias() {
    let langs = linguist();
    let lang = from_name(&langs, "cpp").expect("Could not find C++ by alias");
    assert_eq!(lang.name, "C++");
}

#[test]
fn test_from_extension() {
    let langs = linguist();
    let lang = from_extension(&langs, "rs").expect("Could not find by extension 'rs'");
    assert_eq!(lang.name, "Rust");
}

#[test]
fn test_from_extension_case_insensitive() {
    let langs = linguist();
    let lang1 = from_extension(&langs, "Py").expect("Could not find by extension 'Py'");
    let lang2 = from_extension(&langs, "py").expect("Could not find by extension 'py'");
    assert_eq!(lang1.name, "Python");
    assert_eq!(lang2.name, "Python");
}

#[test]
fn test_from_codemirror_mode() {
    let langs = linguist();
    let lang = from_codemirror_mode(&langs, "javascript").expect("Could not find by codemirror mode");
    assert_eq!(lang.name, "JavaScript");
}

#[test]
fn test_not_found() {
    let langs = linguist();
    assert!(from_name(&langs, "NotALang").is_none());
    assert!(from_extension(&langs, "notanext").is_none());
    assert!(from_codemirror_mode(&langs, "notamode").is_none());
}

#[test]
fn rust_by_extension_end_to_end() {
    let langs = linguist();
    let lang = from_extension(&langs, "rs").unwrap();
    assert_eq!(lang.name, "Rust");
    assert_eq!(lang.language_type, "programming");
    assert_eq!(lang.color.as_deref(), Some("#dea584"));
}

#[test]
fn python_by_name_lists_py() {
    let langs = linguist();
    let python = from_name(&langs, "Python").unwrap();
    assert!(python.extensions.as_ref().unwrap().contains(&".py".to_string()));
}

#[test]
fn extension_variants_find_same_record() {
    let langs = linguist();
    let a = from_extension(&langs, "Py").unwrap();
    let b = from_extension(&langs, "py").unwrap();
    assert_eq!(a.language_id, b.language_id);
    assert_eq!(a.name, "Python");
}

#[test]
fn name_and_alias_ignore_case() {
    let langs = linguist();
    for q in ["rust", "RUST", "rUsT", "rs", "RS"] {
        assert_eq!(from_name(&langs, q).unwrap().language_id, 327);
    }
    for q in ["cpp", "CPP", "Cpp", "c++"] {
        assert_eq!(from_name(&langs, q).unwrap().language_id, 43);
    }
}

#[test]
fn mode_name_match_beats_earlier_record() {
    let langs = linguist();
    // JSON sorts before JavaScript and also uses the mode.
    assert_eq!(from_codemirror_mode(&langs, "JavaScript").unwrap().name, "JavaScript");
}

#[test]
fn mode_without_name_match_goes_to_first() {
    let langs = linguist();
    assert_eq!(from_codemirror_mode(&langs, "clike").unwrap().name, "C");
}

#[test]
fn shared_extension_without_owner_goes_to_first() {
    let langs = linguist();
    assert_eq!(from_extension(&langs, "h").unwrap().name, "C");
    assert_eq!(from_extension(&langs, "cpp").unwrap().name, "C++");
}

#[test]
fn dotted_extension_is_a_different_key() {
    let langs = linguist();
    assert!(from_extension(&langs, ".rs").is_none());
    assert_eq!(from_extension(&langs, "rs.in").unwrap().name, "Rust");
}

#[test]
fn empty_query_finds_nothing() {
    let langs = linguist();
    assert!(from_name(&langs, "").is_none());
    assert!(from_extension(&langs, "").is_none());
    assert!(from_codemirror_mode(&langs, "").is_none());
}

#[test]
fn absent_fields_stay_absent() {
    let langs = linguist();
    let c = from_name(&langs, "c").unwrap();
    assert!(c.aliases.is_none());
    assert!(c.group.is_none());
    assert_eq!(langs.records().len(), 7);
}

#[test]
fn building_twice_answers_alike() {
    let a = linguist();
    let b = linguist();
    for q in ["rust", "cpp", "js", "h", "json", "javascript", "clike", "none"] {
        assert_eq!(
            from_name(&a, q).map(|l| l.language_id),
            from_name(&b, q).map(|l| l.language_id)
        );
        assert_eq!(
            from_extension(&a, q).map(|l| l.language_id),
            from_extension(&b, q).map(|l| l.language_id)
        );
        assert_eq!(
            from_codemirror_mode(&a, q).map(|l| l.language_id),
            from_codemirror_mode(&b, q).map(|l| l.language_id)
        );
    }
}
