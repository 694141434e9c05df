use sparse::SparseRefUtils;
use std::path::PathBuf;

const BASE: &str = "/home/user/sparse/examples/selector.json";

fn ref_pointer_local_helper(raw_pointer: &str, expected_pointer: &str) {
    let r = SparseRefUtils::new(raw_pointer.to_string(), BASE);
    assert_eq!(PathBuf::from(&r.pfile_path), PathBuf::from(BASE), "File path mismatch");
    assert_eq!(expected_pointer, r.pointer, "pointers mismatch");
}

fn ref_pointer_distant_helper(raw_pointer: &str, expected_path: &str, expected_pointer: &str) {
    let r = SparseRefUtils::new(raw_pointer.to_string(), BASE);
    let mut distant_path = PathBuf::from("/home/user/sparse/examples/");
    distant_path.push(PathBuf::from(expected_path));
    assert_eq!(PathBuf::from(&r.pfile_path), distant_path, "No distant reference");
    assert_eq!(expected_pointer, r.pointer, "pointers mismatch");
}

#[test]
fn pointer_parsing_ref_pointer_local_simple() {
    ref_pointer_local_helper("/hello", "/hello");
}

#[test]
fn pointer_parsing_ref_pointer_local_missing_slash() {
    ref_pointer_local_helper("hello", "/hello");
}

#[test]
fn pointer_parsing_ref_pointer_local_with_1_hashtag() {
    ref_pointer_local_helper("#hello", "/hello");
}

#[test]
fn pointer_parsing_ref_pointer_local_with_multiple_hashtags() {
    ref_pointer_local_helper("####hel#lo", "/###hel#lo");
}

#[test]
fn pointer_parsing_ref_pointer_distant_simple() {
    ref_pointer_distant_helper("./world.json#/hello", "./world.json", "/hello");
}

#[test]
fn pointer_parsing_ref_pointer_distant_absolute() {
    ref_pointer_distant_helper("/tmp/hello.json#/hello", "/tmp/hello.json", "/hello");
}

#[test]
fn pointer_parsing_ref_pointer_distant_additional_hashtag() {
    ref_pointer_distant_helper("/tmp/#hello.json#/hello", "/tmp/", "/hello.json#/hello");
}

#[test]
fn empty_pointer_becomes_root_slash() {
    let r = SparseRefUtils::new("#".to_string(), BASE);
    assert_eq!(r.pointer, "/");
    assert_eq!(r.pfile_path, BASE);
    let r = SparseRefUtils::new(String::new(), BASE);
    assert_eq!(r.pointer, "/");
}

#[test]
fn relative_file_is_cleaned_against_base_directory() {
    let r = SparseRefUtils::new("../other/./b.json#/x/0".to_string(), BASE);
    assert_eq!(r.pfile_path, "/home/user/sparse/other/b.json");
    assert_eq!(r.pointer, "/x/0");
    assert_eq!(r.raw_pointer, "../other/./b.json#/x/0");
    assert_eq!(r.version, 0);
}

#[test]
fn normalize_path_relative_and_absolute() {
    assert_eq!(SparseRefUtils::normalize_path("c.json", "/a/b/x.json"), "/a/b/c.json");
    assert_eq!(SparseRefUtils::normalize_path("../c.json", "/a/b/x.json"), "/a/c.json");
    assert_eq!(SparseRefUtils::normalize_path("/z//y/../c.json", "/a/b/x.json"), "/z/c.json");
    assert_eq!(SparseRefUtils::normalize_path("c.json", "x.json"), "c.json");
}

#[test]
fn parse_pointer_without_hash_is_local() {
    let (file, pointer) = SparseRefUtils::parse_pointer("a/b", "/d/f.json");
    assert_eq!(file, "/d/f.json");
    assert_eq!(pointer, "/a/b");
}
