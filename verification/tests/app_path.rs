use colorlang::app_path::{join_or_abs, AbsFilePath, AbsFilePathError};

fn test_join_relative(from: &str, join: &str, jointed: &str) {
    let from_path = AbsFilePath::from_string(from, None).unwrap();
    let jointed_path = from_path.join_relative(join).unwrap();
    assert_eq!(jointed_path.get(), jointed)
}

fn test_join_relative_err(from: &str, join: &str, err: AbsFilePathError) {
    let from_path = AbsFilePath::from_string(from, None).unwrap();
    let jointed_path = from_path.join_relative(join);
    assert_eq!(jointed_path.unwrap_err(), err);
}

#[test]
fn join_relative() {
    test_join_relative("/hello/two/three", "./aaa/bbb", "/hello/two/aaa/bbb");

    test_join_relative("/hello/two/three", "aaa/bbb", "/hello/two/aaa/bbb");

    test_join_relative("/hello/two/three", ".aaa/bbb", "/hello/two/.aaa/bbb");

    test_join_relative("/hello/two/three", "../aaa/bbb", "/hello/aaa/bbb");
    test_join_relative("/hello/two/three", "../../aaa/bbb", "/aaa/bbb");
    test_join_relative("/hello/two/three", "../../../aaa/bbb", "/aaa/bbb");
    test_join_relative("/hello/two/three", "./.aaa/bbb", "/hello/two/.aaa/bbb");
    test_join_relative(
        "/hello/two/three",
        "./.aaa/bbb/ccc/ddd/eee/fff/ggg",
        "/hello/two/.aaa/bbb/ccc/ddd/eee/fff/ggg",
    );
    test_join_relative("/hello", "./aaa", "/aaa");
    test_join_relative("/hello/aaa/bbb/ccc", "aaa/../bbb/ccc/../bb/sss", "/hello/aaa/bbb/bbb/bb/sss");
    test_join_relative("/hello/aaa/bbb/ccc", "aaa/../bbb/ccc/../bb/sss", "/hello/aaa/bbb/bbb/bb/sss");
    test_join_relative(
        "/hello/aaa/bbb/ccc",
        "aaa/..//bbb//ccc/../bb/sss",
        "/hello/aaa/bbb/bbb/bb/sss",
    );
    test_join_relative("/hello/aaa/bbb/ccc", "aaa", "/hello/aaa/bbb/aaa");
    test_join_relative("/hello/aaa/bbb/ccc", ".aaa", "/hello/aaa/bbb/.aaa");
}

#[test]
fn join_relative_err() {
    test_join_relative_err("/hello", "./", AbsFilePathError::FaultFileName);
    test_join_relative_err("/hello", "/aaa", AbsFilePathError::ExpectRelativePath);
    test_join_relative_err("/hello", "aaa/", AbsFilePathError::FaultFileName);
    test_join_relative_err("/hello", "aaa/..", AbsFilePathError::FaultFileName);
    test_join_relative_err("/hello", "aaa/.", AbsFilePathError::FaultFileName);
    test_join_relative_err("/hello", "", AbsFilePathError::ExpectRelativePath);
}

#[test]
fn from_string_renders_back() {
    let p = AbsFilePath::from_string("/hello/two/three", None).unwrap();
    assert_eq!(p.get(), "/hello/two/three");

    let p = AbsFilePath::from_string("/f", None).unwrap();
    assert_eq!(p.get(), "/f");

    // empty segments are dropped
    let p = AbsFilePath::from_string("/a//b/f", None).unwrap();
    assert_eq!(p.get(), "/a/b/f");
}

#[test]
fn from_string_home() {
    let p = AbsFilePath::from_string("~/x/f", Some("/home/usr")).unwrap();
    assert_eq!(p.get(), "/home/usr/x/f");

    assert_eq!(
        AbsFilePath::from_string("~/x/f", None).unwrap_err(),
        AbsFilePathError::FailureGetHomedir
    );
}

#[test]
fn from_string_err() {
    assert_eq!(
        AbsFilePath::from_string("abc", None).unwrap_err(),
        AbsFilePathError::ExpectAbsolutePath
    );
    assert_eq!(
        AbsFilePath::from_string("/", None).unwrap_err(),
        AbsFilePathError::FaultFileName
    );
    assert_eq!(
        AbsFilePath::from_string("/a/..", None).unwrap_err(),
        AbsFilePathError::FaultFileName
    );
}

#[test]
fn join_or_abs_dispatch() {
    let base = AbsFilePath::from_string("/hello/two/three", None).unwrap();

    let p = join_or_abs(&base, "aaa/bbb", None).unwrap();
    assert_eq!(p.get(), "/hello/two/aaa/bbb");

    let p = join_or_abs(&base, "/aaa/bbb", None).unwrap();
    assert_eq!(p.get(), "/aaa/bbb");

    let p = join_or_abs(&base, "~/f", Some("/home/usr")).unwrap();
    assert_eq!(p.get(), "/home/usr/f");

    assert_eq!(
        join_or_abs(&base, "", None).unwrap_err(),
        AbsFilePathError::ExpectRelativePath
    );
}
