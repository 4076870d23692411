use grpc_lb::protoc_paths::{bin, protoc, protoc_gen_rust_grpc};

#[test]
fn binaries_stand_below_the_output_directory() {
    assert_eq!(bin("/tmp/out", false), "/tmp/out/install/bin");
    assert_eq!(protoc("/tmp/out", false), "/tmp/out/install/bin/protoc");
    assert_eq!(
        protoc_gen_rust_grpc("/tmp/out", false),
        "/tmp/out/install/bin/protoc-gen-rust-grpc"
    );
}

#[test]
fn binaries_are_executables_on_windows() {
    assert_eq!(protoc("C:\\out", true), "C:\\out\\install/bin\\protoc.exe");
    assert_eq!(
        protoc_gen_rust_grpc("C:\\out", true),
        "C:\\out\\install/bin\\protoc-gen-rust-grpc.exe"
    );
}

#[test]
fn separators_are_not_doubled() {
    assert_eq!(bin("/tmp/out/", false), "/tmp/out/install/bin");
    assert_eq!(bin("/", false), "/install/bin");
    assert_eq!(bin("", false), "install/bin");
    assert_eq!(bin("C:/out/", true), "C:/out/install/bin");
    assert_eq!(bin("C:", true), "C:install/bin");
    assert_eq!(bin("C:", false), "C:/install/bin");
}

#[test]
fn verbatim_paths_are_joined_by_backslashes() {
    assert_eq!(bin("\\\\?\\C:\\out", true), "\\\\?\\C:\\out\\install\\bin");
    assert_eq!(bin("\\\\?\\C:\\out\\\\dir\\", true), "\\\\?\\C:\\out\\dir\\install\\bin");
    assert_eq!(bin("\\\\?\\C:\\", true), "\\\\?\\C:\\install\\bin");
    assert_eq!(bin("\\\\?\\C:", true), "\\\\?\\C:\\install\\bin");
    assert_eq!(
        bin("\\\\?\\UNC\\host\\share\\a", true),
        "\\\\?\\UNC\\host\\share\\a\\install\\bin"
    );
    // Slashes are ordinary characters of a verbatim path.
    assert_eq!(bin("\\\\?\\C:\\a/b", true), "\\\\?\\C:\\a/b\\install\\bin");
    assert_eq!(
        protoc("\\\\?\\C:\\out", true),
        "\\\\?\\C:\\out\\install\\bin\\protoc.exe"
    );
    assert_eq!(
        protoc_gen_rust_grpc("\\\\?\\C:\\out", true),
        "\\\\?\\C:\\out\\install\\bin\\protoc-gen-rust-grpc.exe"
    );
    // Elsewhere such a path is nothing special.
    assert_eq!(bin("\\\\?\\C:", false), "\\\\?\\C:/install/bin");
}

#[test]
fn executables_stand_in_the_bin_directory() {
    for out_dir in ["C:\\out", "C:", "", "\\\\?\\C:\\out\\", "\\\\?", "\\\\?\\\\x"] {
        let directory = bin(out_dir, true) + "\\";
        assert_eq!(protoc(out_dir, true), directory.clone() + "protoc.exe");
        assert_eq!(
            protoc_gen_rust_grpc(out_dir, true),
            directory + "protoc-gen-rust-grpc.exe"
        );
    }
}

#[test]
fn paths_agree_with_the_standard_library() {
    for out_dir in ["/tmp/out", "/tmp/out/", "/", "", "relative", "C:", "a\\b"] {
        let expected = std::path::PathBuf::from(out_dir).join("install/bin");
        assert_eq!(std::path::Path::new(&bin(out_dir, false)), expected);
        assert_eq!(bin(out_dir, false), expected.to_str().unwrap());
        let expected = expected.join("protoc");
        assert_eq!(protoc(out_dir, false), expected.to_str().unwrap());
    }
}
