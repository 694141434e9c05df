use sparse::sparse_selector::check_depth;
use sparse::tree::parse_index;
use sparse::tree::unescape;
use sparse::{
    SparseError, SparseFileFormat, SparseRef, SparseRoot, SparseSelector, SparseState,
    SparseStateFile, Tree, MAX_SPARSE_DEPTH,
};

fn st(x: &str) -> Tree {
    Tree::Str(x.to_string())
}

fn obj(entries: Vec<(&str, Tree)>) -> Tree {
    Tree::Object(entries.into_iter().map(|(k, v)| (k.to_string(), v)).collect())
}

fn reference(p: &str) -> Tree {
    obj(vec![("$ref", st(p))])
}

fn text_of(s: &SparseSelector) -> String {
    s.get().unwrap().val().as_str().unwrap().clone()
}

fn key_of<'a>(root: &'a SparseRoot, key: &str) -> &'a SparseSelector {
    root.root_get().val().get_key(key).unwrap()
}

#[test]
fn pfile_path_get_pfile_path_local() {
    let state = SparseState::new_from_value("hello.json", Tree::Null);
    let r = SparseRef::new(
        &state,
        "/crate/src/tests/docs/simple.json",
        "/wefwefwe/fwef/wef/we/wewerf#hello".to_string(),
        0,
    )
    .expect_err("Shouldn't have found the file");
    match r {
        SparseError::NoDistantFile => (),
        _ => panic!("expected `NoDistantFile` error"),
    };
}

#[test]
fn pfile_path_get_pfile_path_local_no_distant() {
    let val = obj(vec![("hello", st("world")), ("key1", reference("#/hello"))]);
    let state = SparseState::new_from_value("/crate/hello.json", val);
    let r = SparseRef::new(&state, "/crate/hello.json", "#hello".to_string(), 0)
        .expect("to create the pointer");
    assert_eq!(r.utils.pfile_path, "/crate/hello.json", "It should be the local document");
    assert_eq!(text_of(&r.val), "world");
}

#[test]
fn recursive_simple() {
    let val = obj(vec![("hello", st("world")), ("key1", reference("#/key1"))]);
    let err = SparseRoot::new_from_value(val, "hello.json", vec![]).expect_err("it's cyclic");
    match err {
        SparseError::CyclicRef => (),
        _ => panic!("The error should've been `CyclicRef`"),
    }
}

#[test]
fn double() {
    let val = obj(vec![("hello", st("world")), ("key1", reference("file1.json#/key1"))]);
    let val2 = obj(vec![("hello", st("world")), ("key1", reference("file0.json#/key1"))]);
    let err = SparseRoot::new_from_value(val, "file0.json", vec![(val2, "file1.json".to_string())])
        .expect_err("it's cyclic");
    match err {
        SparseError::CyclicRef => (),
        _ => panic!("The error should've been `CyclicRef`"),
    }
}

#[test]
fn ref_get_local_simple() {
    let val = obj(vec![("hello", st("world")), ("key1", reference("#/hello"))]);
    let state = SparseState::new_from_value("hello.json", val);
    let parsed = state.parse_root().unwrap();
    let hello = parsed.get_key("hello").unwrap().as_str().unwrap().clone();
    assert_eq!(text_of(parsed.get_key("key1").unwrap()), hello, "The dereferenced value doesn't match");
}

#[test]
fn ref_get_local_list() {
    let val = obj(vec![
        ("list", Tree::Array(vec![st("world"), st("universe")])),
        ("key1", reference("#/list/1")),
    ]);
    let state = SparseState::new_from_value("hello.json", val);
    let parsed = state.parse_root().unwrap();
    let second = parsed.get_key("list").unwrap().get_index(1).unwrap().as_str().unwrap().clone();
    assert_eq!(text_of(parsed.get_key("key1").unwrap()), second, "The dereferenced value doesn't match");
}

#[test]
fn ref_get_local_distant() {
    let val = obj(vec![
        ("list", Tree::Array(vec![st("world"), st("universe")])),
        ("key1", reference("./help#/list/1")),
    ]);
    let state = SparseState::new_from_value("hello.json", val);
    let err = state.parse_root().expect_err("Supposed to fail, no distant file in a local state");
    match err {
        SparseError::NoDistantFile => (),
        _ => panic!("Expected the err to be `NoDistantFile`"),
    };
}

#[test]
fn ref_get_local_not_found() {
    let val = obj(vec![
        ("list", Tree::Array(vec![st("world"), st("universe")])),
        ("key1", reference("#/list/3")),
    ]);
    let state = SparseState::new_from_value("hello.json", val);
    let err = state.parse_root().expect_err("Supposed to fail, dangling pointer");
    match err {
        SparseError::UnknownPath(p) => assert_eq!(p, "/list/3"),
        _ => panic!("Expected the err to be `UnkownPath`"),
    };
}

#[test]
fn simple_obj_simple_obj() {
    let val = obj(vec![("hello", st("world")), ("key1", st("toto"))]);
    let state = SparseState::new_from_value("hello.json", val);
    let parsed = state.parse_root().unwrap();
    assert_eq!(text_of(parsed.get_key("key1").unwrap()), "toto", "The dereferenced value doesn't match");
}

#[test]
fn modify_root() {
    let val = obj(vec![("hello", st("world")), ("key1", reference("#/hello"))]);
    let mut parsed = SparseRoot::new_from_value(val, "hello.json", vec![]).unwrap();
    let mut hello_key = key_of(&parsed, "key1").get_mut(parsed.get_state()).unwrap();
    hello_key.set(st("toto"));
    parsed.sparse_save(hello_key).unwrap();
    parsed.sparse_updt().unwrap();
    assert_eq!(text_of(key_of(&parsed, "key1")), "toto", "The dereferenced value doesn't match");
    assert_eq!(text_of(key_of(&parsed, "hello")), "toto", "The dereferenced value doesn't match");
}

#[test]
fn modify_nested() {
    let val = obj(vec![("hello", st("world")), ("key1", reference("toto.json#/key1"))]);
    let val2 = obj(vec![
        ("key1", st("hallo!")),
        ("list", Tree::Array(vec![st("hehe1"), st("hehe2"), reference("hello.json#/hello")])),
    ]);
    let mut parsed =
        SparseRoot::new_from_value(val, "hello.json", vec![(val2, "toto.json".to_string())]).unwrap();
    let mut hello_key = key_of(&parsed, "key1").get_mut(parsed.get_state()).unwrap();
    hello_key.set(st("toto"));
    parsed.sparse_save(hello_key).unwrap();
    parsed.sparse_updt().unwrap();
    assert_eq!(text_of(key_of(&parsed, "key1")), "toto", "The dereferenced value doesn't match");
}

#[test]
fn inline_simple() {
    let val = obj(vec![("hello", st("world")), ("key1", st("#/hello"))]);
    let parsed = SparseRoot::new_from_value(val, "hello.json", vec![]).unwrap();
    assert_eq!(text_of(key_of(&parsed, "key1")), "#/hello", "The dereferenced value doesn't match");
    let view = key_of(&parsed, "key1").get().unwrap();
    let ptr = view.val().as_str().unwrap().clone();
    let res = view.try_deref_raw_pointer(ptr, parsed.get_state()).unwrap();
    assert_eq!(text_of(&res), "world", "The dereferenced value doesn't match");
}

fn nested_doc() -> Tree {
    obj(vec![
        ("list", Tree::Array(vec![st("world")])),
        ("key1", reference("#/list/0")),
        ("key2", reference("#/key1")),
        ("key3", st("#/key2")),
    ])
}

#[test]
fn nested() {
    let parsed = SparseRoot::new_from_value(nested_doc(), "hello.json", vec![]).unwrap();
    assert_eq!(text_of(key_of(&parsed, "key3")), "#/key2", "The dereferenced value doesn't match");
    let view = key_of(&parsed, "key3").get().unwrap();
    let ptr = view.val().as_str().unwrap().clone();
    let res = view.try_deref_raw_pointer(ptr, parsed.get_state()).unwrap();
    assert_eq!(text_of(&res), "world", "The dereferenced value doesn't match");
}

#[test]
fn nested_mut() {
    let parsed = SparseRoot::new_from_value(nested_doc(), "hello.json", vec![]).unwrap();
    assert_eq!(text_of(key_of(&parsed, "key3")), "#/key2", "The dereferenced value doesn't match");
    let root_view = parsed.root_get_mut().unwrap();
    let ptr = match &root_view.val {
        Tree::Object(entries) => match &entries[3].1 {
            Tree::Str(x) => x.clone(),
            _ => panic!("key3 should be a string"),
        },
        _ => panic!("the root should be an object"),
    };
    let res = root_view.try_deref_raw_pointer(ptr, parsed.get_state()).unwrap();
    assert_eq!(text_of(&res), "world", "The dereferenced value doesn't match");
}

#[test]
fn simple_struct() {
    let val = obj(vec![("hello", st("world")), ("key1", st("#/hello"))]);
    let parsed = SparseRoot::new_from_value(val, "hello.json", vec![]).unwrap();
    let view = key_of(&parsed, "key1").get().unwrap();
    let res = view.try_deref_raw_pointer("#/hello".to_string(), parsed.get_state()).unwrap();
    assert_eq!(text_of(&res), "world", "The dereferenced value doesn't match");
}

#[test]
fn nested_struct() {
    let val = obj(vec![
        ("list", Tree::Array(vec![st("world")])),
        ("key1", reference("#/list/0")),
        ("key2", st("#/key1")),
        ("key3", st("#/key2")),
    ]);
    let parsed = SparseRoot::new_from_value(val, "hello.json", vec![]).unwrap();
    let view = key_of(&parsed, "key3").get().unwrap();
    let res = view.try_deref_raw_pointer("#/key2".to_string(), parsed.get_state()).unwrap();
    assert_eq!(text_of(&res), "#/key1", "The dereferenced value doesn't match");
}

#[test]
fn local_resolution_yields_world() {
    let val = obj(vec![("hello", st("world")), ("key1", reference("#/hello"))]);
    let parsed = SparseRoot::new_from_value(val, "doc.json", vec![]).unwrap();
    assert_eq!(text_of(key_of(&parsed, "key1")), "world");
}

#[test]
fn cross_file_resolution_loads_three_files() {
    let file_a = obj(vec![("key1", reference("fileB.json#/list/2"))]);
    let file_b = obj(vec![(
        "list",
        Tree::Array(vec![st("x"), st("y"), reference("fileC.json#/key1")]),
    )]);
    let file_c = obj(vec![("key1", st("z"))]);
    let mut root = SparseRoot::new_from_file("/data/fileA.json", file_a, SparseFileFormat::Json(true));
    let mut b = Some(file_b);
    let mut c = Some(file_c);
    let mut asked: Vec<String> = Vec::new();
    loop {
        match root.sparse_init() {
            Ok(()) => break,
            Err(SparseError::FileNeeded(p)) => {
                let content = if p == "/data/fileB.json" { b.take() } else { c.take() };
                asked.push(p.clone());
                root.add_file(&p, content.expect("file asked twice"), SparseFileFormat::Json(false))
                    .unwrap();
            }
            Err(e) => panic!("unexpected error {:?}", e),
        }
    }
    assert_eq!(asked, vec!["/data/fileB.json".to_string(), "/data/fileC.json".to_string()]);
    assert_eq!(text_of(key_of(&root, "key1")), "z");
    assert_eq!(root.get_state().paths().len(), 3);
    assert!(root.get_state().contains("/data/fileC.json"));
}

#[test]
fn dangling_pointer_reports_path() {
    let val = obj(vec![("key1", reference("#/nonexistent"))]);
    let err = SparseRoot::new_from_value(val, "doc.json", vec![]).expect_err("dangling");
    match err {
        SparseError::UnknownPath(p) => assert_eq!(p, "/nonexistent"),
        e => panic!("unexpected error {:?}", e),
    }
}

#[test]
fn in_memory_store_refuses_other_files() {
    let val = obj(vec![("key1", reference("other.json#/x"))]);
    let err = SparseRoot::new_from_value(val, "doc.json", vec![]).expect_err("no distant file");
    assert!(matches!(err, SparseError::NoDistantFile));
}

#[test]
fn self_field_is_cyclic() {
    let val = obj(vec![("self_field", reference("#/self_field"))]);
    let err = SparseRoot::new_from_value(val, "doc.json", vec![]).expect_err("cyclic");
    assert!(matches!(err, SparseError::CyclicRef));
}

#[test]
fn three_file_cycle_is_cyclic() {
    let a = obj(vec![("k", reference("b.json#/k"))]);
    let b = obj(vec![("k", reference("c.json#/k"))]);
    let c = obj(vec![("k", reference("a.json#/k"))]);
    let err = SparseRoot::new_from_value(
        a,
        "a.json",
        vec![(b, "b.json".to_string()), (c, "c.json".to_string())],
    )
    .expect_err("cyclic");
    assert!(matches!(err, SparseError::CyclicRef));
}

fn nest(depth: usize) -> Tree {
    let mut t = st("leaf");
    for _ in 0..depth {
        t = Tree::Array(vec![t]);
    }
    t
}

#[test]
fn nesting_depth_bound() {
    let ok = SparseRoot::new_from_value(nest(100), "doc.json", vec![]);
    assert!(ok.is_ok());
    let err = SparseRoot::new_from_value(nest(101), "doc.json", vec![]).expect_err("too deep");
    assert!(matches!(err, SparseError::CyclicRef));
    assert!(check_depth(MAX_SPARSE_DEPTH - 1).is_ok());
    assert!(matches!(check_depth(MAX_SPARSE_DEPTH), Err(SparseError::CyclicRef)));
}

#[test]
fn save_is_seen_by_independent_reference_after_update() {
    let val = obj(vec![
        ("hello", st("world")),
        ("key1", reference("#/hello")),
        ("key2", reference("#/hello")),
    ]);
    let mut root = SparseRoot::new_from_value(val, "doc.json", vec![]).unwrap();
    let mut view = key_of(&root, "key1").get_mut(root.get_state()).unwrap();
    view.set(st("changed"));
    assert_eq!(text_of(key_of(&root, "key2")), "world");
    root.sparse_save(view).unwrap();
    assert_eq!(text_of(key_of(&root, "key2")), "world");
    assert!(matches!(key_of(&root, "key2").check_version(root.get_state()), Err(SparseError::OutdatedPointer)));
    assert!(matches!(root.check_version(), Err(SparseError::OutdatedPointer)));
    root.sparse_updt().unwrap();
    assert_eq!(text_of(key_of(&root, "key2")), "changed");
    assert!(root.check_version().is_ok());
}

#[test]
fn save_increments_version_by_one() {
    let val = obj(vec![("hello", st("world")), ("key1", reference("#/hello"))]);
    let mut root = SparseRoot::new_from_value(val, "doc.json", vec![]).unwrap();
    let before = root.get_state().get_state_file("doc.json").unwrap().version();
    let mut view = root.root_get_mut().unwrap();
    view.set(obj(vec![("hello", st("again"))]));
    root.sparse_save(view).unwrap();
    let after = root.get_state().get_state_file("doc.json").unwrap().version();
    assert_eq!(after, before + 1);
    assert!(matches!(root.root_get_mut(), Err(SparseError::OutdatedPointer)));
    root.sparse_updt().unwrap();
    assert_eq!(text_of(key_of(&root, "hello")), "again");
}

#[test]
fn state_file_replace_and_bump() {
    let mut f = SparseStateFile::new(st("a"), SparseFileFormat::Yaml);
    let v0 = f.version();
    assert!(v0 >= 1 && v0 < u64::MAX);
    f.bump_version();
    assert_eq!(f.version(), v0 + 1);
    f.replace(st("b"));
    assert_eq!(f.version(), v0 + 2);
    assert_eq!(*f.val(), st("b"));
    assert_eq!(f.ftype(), SparseFileFormat::Yaml);
    assert_eq!(SparseFileFormat::default(), SparseFileFormat::Yaml);
}

#[test]
fn add_file_twice_keeps_first() {
    let mut state = SparseState::new_from_file("/d/root.json", st("r"), SparseFileFormat::Json(true));
    state.add_file("other.json", st("first"), SparseFileFormat::Yaml).unwrap();
    let v1 = state.get_state_file("/d/other.json").unwrap().version();
    state.add_file("/d/./other.json", st("second"), SparseFileFormat::Json(false)).unwrap();
    let f = state.get_state_file("/d/other.json").unwrap();
    assert_eq!(f.version(), v1);
    assert_eq!(*f.val(), st("first"));
    assert_eq!(f.ftype(), SparseFileFormat::Yaml);
    assert_eq!(state.paths().len(), 2);
}

#[test]
fn add_file_refused_in_memory() {
    let mut state = SparseState::new_from_value("/d/root.json", st("r"));
    let err = state.add_file("other.json", st("x"), SparseFileFormat::Yaml).unwrap_err();
    assert!(matches!(err, SparseError::NoDistantFile));
    assert!(!state.contains("/d/other.json"));
    state.add_value("other.json", st("x"));
    assert!(state.contains("/d/other.json"));
}

#[test]
fn missing_document_is_not_in_state() {
    let state = SparseState::new_from_value("/d/root.json", st("r"));
    assert!(matches!(state.get_state_file("/d/none.json"), Err(SparseError::NotInState)));
    assert_eq!(state.get_root_path(), "/d/root.json");
    assert!(state.is_in_memory());
}

#[test]
fn unresolved_reference_is_bad_pointer() {
    let s = SparseSelector::from_tree(&reference("#/a"), "/d/x.json");
    assert!(matches!(s.get(), Err(SparseError::BadPointer)));
    let state = SparseState::new_from_value("/d/x.json", st("r"));
    assert!(matches!(s.check_version(&state), Err(SparseError::BadPointer)));
    let inline = SparseSelector::from_tree(&st("v"), "/d/x.json");
    assert!(matches!(inline.get_mut(&state), Err(SparseError::BadPointer)));
}

#[test]
fn replace_at_unknown_pointer() {
    let mut state = SparseState::new_from_value("/d/x.json", obj(vec![("a", st("1"))]));
    let err = state.replace_at("/d/x.json", Some("/b"), st("2")).unwrap_err();
    match err {
        SparseError::UnknownPath(p) => assert_eq!(p, "/b"),
        e => panic!("unexpected error {:?}", e),
    }
    assert!(matches!(state.replace_at("/d/y.json", None, st("2")), Err(SparseError::NotInState)));
    state.replace_at("/d/x.json", Some("/a"), st("2")).unwrap();
    assert_eq!(*state.get_state_file("/d/x.json").unwrap().val(), obj(vec![("a", st("2"))]));
}

#[test]
fn pointer_lookup_rules() {
    let t = obj(vec![("list", Tree::Array(vec![st("a"), st("b")])), ("", st("empty"))]);
    assert_eq!(t.pointer(""), Some(&t));
    assert_eq!(t.pointer("/list/1"), Some(&st("b")));
    assert_eq!(t.pointer("/list/01"), None);
    assert_eq!(t.pointer("/list/+1"), None);
    assert_eq!(t.pointer("/list/2"), None);
    assert_eq!(t.pointer("/"), Some(&st("empty")));
    assert_eq!(t.pointer("list"), None);
    assert_eq!(parse_index(&vec!['0'], 1), Some(0));
    assert_eq!(parse_index(&"99999999999999999999999".chars().collect(), 5), None);
    assert_eq!(parse_index(&vec!['1', '2'], 13), Some(12));
    assert_eq!(parse_index(&vec!['1', '2'], 12), None);
    assert_eq!(parse_index(&vec![], 12), None);
}

#[test]
fn pointer_tokens_are_unescaped() {
    let t = obj(vec![("a/b", st("slash")), ("m~n", st("tilde")), ("~1", st("literal"))]);
    assert_eq!(t.pointer("/a~1b"), Some(&st("slash")));
    assert_eq!(t.pointer("/m~0n"), Some(&st("tilde")));
    assert_eq!(t.pointer("/~01"), Some(&st("literal")));
    assert_eq!(t.pointer("/a/b"), None);
    assert_eq!(unescape("~01~1x"), vec!['~', '1', '/', 'x']);
}

#[test]
fn round_trip_without_references() {
    let doc = obj(vec![
        ("a", Tree::Number("1.5".to_string())),
        ("b", Tree::Array(vec![Tree::Bool(true), Tree::Null])),
        ("c", obj(vec![("d", st("e"))])),
    ]);
    let root = SparseRoot::new_from_value(doc, "doc.json", vec![]).unwrap();
    let view = root.root_get_mut().unwrap();
    assert_eq!(&view.val, root.get_state().get_state_file("doc.json").unwrap().val());
}

#[test]
fn serialized_reference_is_ref_object() {
    let s = SparseSelector::from_tree(&reference("f.json#/x"), "/d/x.json");
    assert_eq!(s.to_tree(), reference("f.json#/x"));
}

#[test]
fn file_needed_path_is_added_as_given() {
    let a = obj(vec![("k", reference("sub/../b.json#/v"))]);
    let mut root = SparseRoot::new_from_file("/data/a.json", a, SparseFileFormat::Json(true));
    let p = match root.sparse_init() {
        Err(SparseError::FileNeeded(p)) => p,
        other => panic!("unexpected {:?}", other),
    };
    assert_eq!(p, "/data/b.json");
    root.add_file_at(&p, obj(vec![("v", st("w"))]), SparseFileFormat::Yaml).unwrap();
    root.add_file_at(&p, st("ignored"), SparseFileFormat::Yaml).unwrap();
    assert_eq!(*root.get_state().get_state_file(&p).unwrap().val(), obj(vec![("v", st("w"))]));
    root.sparse_init().unwrap();
    assert_eq!(text_of(key_of(&root, "k")), "w");
}

#[test]
fn update_without_save_keeps_values() {
    let val = obj(vec![("hello", st("world")), ("key1", reference("#/hello"))]);
    let mut root = SparseRoot::new_from_value(val, "doc.json", vec![]).unwrap();
    let v0 = root.get_state().get_state_file("doc.json").unwrap().version();
    let mut view = key_of(&root, "key1").get_mut(root.get_state()).unwrap();
    view.set(st("unsaved"));
    root.sparse_updt().unwrap();
    assert_eq!(text_of(key_of(&root, "key1")), "world");
    assert_eq!(root.get_state().get_state_file("doc.json").unwrap().version(), v0);
}

#[test]
fn deep_reference_reports_cycle_depth() {
    let state = SparseState::new_from_value("doc.json", obj(vec![("a", st("x"))]));
    let err = SparseRef::new(&state, "doc.json", "#/a".to_string(), MAX_SPARSE_DEPTH).unwrap_err();
    assert!(matches!(err, SparseError::CyclicRef));
}
