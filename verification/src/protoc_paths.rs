//! Where the build puts `protoc` and its gRPC plugin.
//!
//! The build installs both under its output directory. That directory and the
//! platform are known only to the build, so they are parameters here.

use vstd::prelude::*;
use vstd::string::*;

verus! {

/// Where the executables stand below the output directory.
pub const BIN_DIRECTORY: &'static str = "install/bin";

/// The file name of the compiler.
pub const PROTOC: &'static str = "protoc";

/// The file name of the gRPC plugin.
pub const PROTOC_GEN_RUST_GRPC: &'static str = "protoc-gen-rust-grpc";

/// What is appended to the names of executables on Windows.
pub const WINDOWS_SUFFIX: &'static str = ".exe";

/// The character that is put between two components of a path.
pub open spec fn separator(windows: bool) -> char {
    if windows {
        '\\'
    } else {
        '/'
    }
}

/// The character separates two components of a path.
pub open spec fn is_separator(c: char, windows: bool) -> bool {
    c == '/' || (windows && c == '\\')
}

/// The path is a drive letter and a colon, and no more.
pub open spec fn is_bare_drive(path: Seq<char>) -> bool {
    &&& path.len() == 2
    &&& path[1] == ':'
    &&& ('a' <= path[0] <= 'z' || 'A' <= path[0] <= 'Z')
}

/// The path starts with two backslashes, a question mark and a backslash. On
/// Windows such a path is verbatim: only backslashes separate its components.
pub open spec fn is_verbatim(path: Seq<char>) -> bool {
    &&& path.len() >= 4
    &&& path[0] == '\\'
    &&& path[1] == '\\'
    &&& path[2] == '?'
    &&& path[3] == '\\'
}

/// The first backslash from `from` on, or the path's end.
pub open spec fn backslash_from(path: Seq<char>, from: int) -> int
    decreases path.len() - from,
{
    if from < 0 || from >= path.len() || path[from] == '\\' {
        from
    } else {
        backslash_from(path, from + 1)
    }
}

/// How long the prefix of a verbatim path is: up to the end of its first
/// component, or up to the end of the share if it names a server and a share.
pub open spec fn prefix_len(path: Seq<char>) -> int {
    let first = backslash_from(path, 4);
    if first == 7 && path.len() > 7 && path[4] == 'U' && path[5] == 'N' && path[6] == 'C' {
        let server = backslash_from(path, 8);
        let share = backslash_from(path, server + 1);
        if share > server + 1 {
            share
        } else {
            server
        }
    } else {
        first
    }
}

/// The components of a path, each behind one backslash. Where `slashes` is set,
/// slashes separate components, too.
pub open spec fn components(path: Seq<char>, slashes: bool) -> Seq<char>
    decreases path.len(),
{
    if path.len() == 0 {
        Seq::empty()
    } else {
        let front = path.drop_last();
        let c = path.last();
        if splits(c, slashes) {
            components(front, slashes)
        } else if front.len() > 0 && !splits(front.last(), slashes) {
            components(front, slashes).push(c)
        } else {
            components(front, slashes).push('\\').push(c)
        }
    }
}

/// The character separates components: a backslash, or a slash if those count.
pub open spec fn splits(c: char, slashes: bool) -> bool {
    c == '\\' || (slashes && c == '/')
}

/// The relative path `part` below `base`: a separator stands between them
/// unless `base` is empty, ends in one, or is a bare drive on Windows. Below a
/// verbatim path all components are separated by one backslash.
pub open spec fn joined(base: Seq<char>, part: Seq<char>, windows: bool) -> Seq<char> {
    if windows && is_verbatim(base) {
        base.take(prefix_len(base)) + components(base.skip(prefix_len(base)), false) + components(
            part,
            true,
        )
    } else if base.len() == 0 || is_separator(base.last(), windows) || (windows && is_bare_drive(
        base,
    )) {
        base + part
    } else {
        base.push(separator(windows)) + part
    }
}

/// The directory of the executables.
pub open spec fn bin_path(out_dir: Seq<char>, windows: bool) -> Seq<char> {
    joined(out_dir, BIN_DIRECTORY@, windows)
}

/// An executable in that directory.
pub open spec fn bin_file_path(out_dir: Seq<char>, file: Seq<char>, windows: bool) -> Seq<char> {
    let path = joined(bin_path(out_dir, windows), file, windows);
    if windows {
        path + WINDOWS_SUFFIX@
    } else {
        path
    }
}

/// `String::push`: the character is appended.
pub assume_specification[ String::push ](text: &mut String, c: char)
    ensures
        final(text)@ == old(text)@.push(c),
;

/// The characters of a text.
fn characters(text: &str) -> (chars: Vec<char>)
    ensures
        chars@ == text@,
{
    let mut chars: Vec<char> = Vec::new();
    for c in it: text.chars()
        invariant
            it.seq() == text@,
            chars@ == text@.take(it.index() as int),
    {
        chars.push(c);
        assert(chars@ =~= text@.take(it.index() + 1));
    }
    assert(text@.take(text@.len() as int) =~= text@);
    chars
}

/// The first backslash from `from` on, or the path's end.
fn find_backslash(path: &Vec<char>, from: usize) -> (at: usize)
    requires
        from <= path@.len(),
    ensures
        at == backslash_from(path@, from as int),
        from <= at <= path@.len(),
{
    let mut at: usize = from;
    while at < path.len() && path[at] != '\\'
        invariant
            from <= at <= path@.len(),
            backslash_from(path@, at as int) == backslash_from(path@, from as int),
        decreases path@.len() - at,
    {
        at = at + 1;
    }
    at
}

/// How long the prefix of a verbatim path is.
fn verbatim_prefix(path: &Vec<char>) -> (len: usize)
    requires
        is_verbatim(path@),
    ensures
        len == prefix_len(path@),
        4 <= len <= path@.len(),
{
    let first: usize = find_backslash(path, 4);
    if first == 7 && path.len() > 7 && path[4] == 'U' && path[5] == 'N' && path[6] == 'C' {
        let server: usize = find_backslash(path, 8);
        if server < path.len() {
            let share: usize = find_backslash(path, server + 1);
            if share > server + 1 {
                return share;
            }
        }
        return server;
    }
    first
}

/// Appends the components of a path from `from` on, each behind one backslash.
fn append_components(out: &mut String, path: &Vec<char>, from: usize, slashes: bool)
    requires
        from <= path@.len(),
    ensures
        final(out)@ == old(out)@ + components(path@.skip(from as int), slashes),
{
    let ghost rest = path@.skip(from as int);
    for k in from..path.len()
        invariant
            from <= path@.len(),
            rest == path@.skip(from as int),
            out@ == old(out)@ + components(rest.take(k - from), slashes),
    {
        let c: char = path[k];
        proof {
            assert(rest.take(k - from + 1).drop_last() =~= rest.take(k - from));
            assert(rest.take(k - from + 1).last() == c);
            if k > from {
                assert(rest.take(k - from).last() == path@[k - 1]);
            }
        }
        let splits_here: bool = c == '\\' || (slashes && c == '/');
        if !splits_here {
            let within: bool = k > from && path[k - 1] != '\\' && !(slashes && path[k - 1] == '/');
            if !within {
                out.push('\\');
            }
            out.push(c);
        }
        assert(out@ =~= old(out)@ + components(rest.take(k - from + 1), slashes));
    }
    assert(rest.take(rest.len() as int) =~= rest);
}

/// The relative path `part` below the verbatim path `base`.
fn join_verbatim(base: &str, part: &str) -> (path: String)
    requires
        is_verbatim(base@),
    ensures
        path@ == joined(base@, part@, true),
{
    let chars = characters(base);
    let prefix: usize = verbatim_prefix(&chars);
    let mut path = String::new();
    for k in 0..prefix
        invariant
            prefix <= chars@.len(),
            path@ == chars@.take(k as int),
    {
        path.push(chars[k]);
        assert(path@ =~= chars@.take(k + 1));
    }
    append_components(&mut path, &chars, prefix, false);
    let parts = characters(part);
    append_components(&mut path, &parts, 0, true);
    assert(part@.skip(0) =~= part@);
    path
}

/// Whether a path is verbatim on Windows.
fn starts_verbatim(path: &str) -> (verbatim: bool)
    ensures
        verbatim == is_verbatim(path@),
{
    path.unicode_len() >= 4 && path.get_char(0) == '\\' && path.get_char(1) == '\\'
        && path.get_char(2) == '?' && path.get_char(3) == '\\'
}

fn join(base: &str, part: &str, windows: bool) -> (path: String)
    ensures
        path@ == joined(base@, part@, windows),
{
    if windows && starts_verbatim(base) {
        return join_verbatim(base, part);
    }
    let mut path = base.to_owned();
    let len: usize = base.unicode_len();
    if len > 0 {
        let last: char = base.get_char(len - 1);
        let first: char = base.get_char(0);
        let bare_drive = len == 2 && last == ':' && (('a' <= first && first <= 'z') || ('A' <= first
            && first <= 'Z'));
        if last == '/' || (windows && (last == '\\' || bare_drive)) {
            path.append(part);
        } else if windows {
            path.append("\\");
            path.append(part);
        } else {
            path.append("/");
            path.append(part);
        }
    } else {
        path.append(part);
    }
    proof {
        reveal_strlit("/");
        reveal_strlit("\\");
        assert(base@.push('/') + part@ =~= base@ + "/"@ + part@);
        assert(base@.push('\\') + part@ =~= base@ + "\\"@ + part@);
    }
    path
}

/// The path of the executable `file`. On Windows its name gets the extension
/// that executables have there.
fn bin_file(out_dir: &str, file: &str, windows: bool) -> (path: String)
    ensures
        path@ == bin_file_path(out_dir@, file@, windows),
{
    let directory = bin(out_dir, windows);
    let mut path = join(directory.as_str(), file, windows);
    if windows {
        path.append(WINDOWS_SUFFIX);
    }
    path
}

/// The path of the `protoc` executable that the build installed under
/// `out_dir`.
pub fn protoc(out_dir: &str, windows: bool) -> (path: String)
    ensures
        path@ == bin_file_path(out_dir@, PROTOC@, windows),
{
    bin_file(out_dir, PROTOC, windows)
}

/// The path of the gRPC plugin, `protoc-gen-rust-grpc`, that the build installed
/// under `out_dir`.
pub fn protoc_gen_rust_grpc(out_dir: &str, windows: bool) -> (path: String)
    ensures
        path@ == bin_file_path(out_dir@, PROTOC_GEN_RUST_GRPC@, windows),
{
    bin_file(out_dir, PROTOC_GEN_RUST_GRPC, windows)
}

/// The path of the directory of the executables that the build installed under
/// `out_dir`.
pub fn bin(out_dir: &str, windows: bool) -> (path: String)
    ensures
        path@ == bin_path(out_dir@, windows),
{
    join(out_dir, BIN_DIRECTORY, windows)
}

/// Where the first backslash is found.
proof fn lemma_backslash(path: Seq<char>, from: int)
    requires
        0 <= from <= path.len(),
    ensures
        from <= backslash_from(path, from) <= path.len(),
        backslash_from(path, from) < path.len() ==> path[backslash_from(path, from)] == '\\',
        forall|i: int| from <= i < backslash_from(path, from) ==> #[trigger] path[i] != '\\',
    decreases path.len() - from,
{
    if from < path.len() && path[from] != '\\' {
        lemma_backslash(path, from + 1);
    }
}

proof fn lemma_backslash_at(path: Seq<char>, from: int, at: int)
    requires
        0 <= from <= at < path.len(),
        path[at] == '\\',
        forall|i: int| from <= i < at ==> #[trigger] path[i] != '\\',
    ensures
        backslash_from(path, from) == at,
    decreases at - from,
{
    if from < at {
        lemma_backslash_at(path, from + 1, at);
    }
}

/// The text starts with a backslash, if it is not empty, and has no two in a row.
spec fn single_backslashes(text: Seq<char>) -> bool {
    &&& text.len() > 0 ==> text[0] == '\\'
    &&& forall|i: int| 0 <= i < text.len() - 1 ==> !#[trigger] double_at(text, i)
}

/// Two backslashes stand in a row.
spec fn double_at(text: Seq<char>, i: int) -> bool {
    text[i] == '\\' && text[i + 1] == '\\'
}

proof fn lemma_components_single(path: Seq<char>, slashes: bool)
    ensures
        single_backslashes(components(path, slashes)),
        components(path, slashes).len() > 0 ==> components(path, slashes).last() != '\\',
        path.len() > 0 && !splits(path.last(), slashes) ==> components(path, slashes).len() > 0
            && components(path, slashes).last() == path.last(),
    decreases path.len(),
{
    if path.len() > 0 {
        let front = path.drop_last();
        let before = components(front, slashes);
        let after = components(path, slashes);
        lemma_components_single(front, slashes);
        assert forall|i: int| 0 <= i < after.len() - 1 implies !#[trigger] double_at(after, i) by {
            if i < before.len() - 1 {
                assert(!double_at(before, i));
            }
        }
    }
}

/// A text whose components stand behind one backslash each is made of them.
proof fn lemma_components_same(text: Seq<char>)
    requires
        single_backslashes(text),
    ensures
        components(text, false) == (if text.len() > 0 && text.last() == '\\' {
            text.drop_last()
        } else {
            text
        }),
    decreases text.len(),
{
    if text.len() > 0 {
        let front = text.drop_last();
        assert forall|i: int| 0 <= i < front.len() - 1 implies !#[trigger] double_at(front, i) by {
            assert(!double_at(text, i));
        }
        lemma_components_same(front);
        if front.len() > 0 {
            assert(!double_at(text, text.len() - 2));
        }
        assert(components(text, false) =~= (if text.last() == '\\' {
            text.drop_last()
        } else {
            text
        }));
    }
}

/// A name without separators is its only component.
proof fn lemma_components_name(name: Seq<char>)
    requires
        name.len() > 0,
        forall|i: int| 0 <= i < name.len() ==> !splits(#[trigger] name[i], true),
    ensures
        components(name, true) == seq!['\\'] + name,
    decreases name.len(),
{
    let front = name.drop_last();
    assert(!splits(name[name.len() - 1], true));
    if front.len() > 0 {
        assert(!splits(name[name.len() - 2], true));
        assert forall|i: int| 0 <= i < front.len() implies !splits(#[trigger] front[i], true) by {
            assert(front[i] == name[i]);
        }
        lemma_components_name(front);
        assert(components(name, true) =~= seq!['\\'] + name);
    } else {
        assert(components(front, true) =~= Seq::<char>::empty());
        assert(components(name, true) =~= seq!['\\'] + name);
    }
}

/// Two such texts in a row are one again.
proof fn lemma_single_append(front: Seq<char>, back: Seq<char>)
    requires
        single_backslashes(front),
        single_backslashes(back),
        front.len() > 0 ==> front.last() != '\\',
    ensures
        single_backslashes(front + back),
{
    let all = front + back;
    assert forall|i: int| 0 <= i < all.len() - 1 implies !#[trigger] double_at(all, i) by {
        if i + 1 < front.len() {
            assert(!double_at(front, i));
        } else if i >= front.len() {
            assert(!double_at(back, i - front.len()));
        } else {
            assert(all[i] == front.last());
        }
    }
}

/// What such a text has from one of its backslashes on is such a text.
proof fn lemma_single_skip(text: Seq<char>, n: int)
    requires
        single_backslashes(text),
        0 <= n <= text.len(),
        n < text.len() ==> text[n] == '\\',
    ensures
        single_backslashes(text.skip(n)),
{
    let rest = text.skip(n);
    assert forall|i: int| 0 <= i < rest.len() - 1 implies !#[trigger] double_at(rest, i) by {
        assert(!double_at(text, i + n));
    }
}

/// A joined path is the prefix of its base and components behind backslashes.
proof fn lemma_joined_body(base: Seq<char>, part: Seq<char>)
    requires
        is_verbatim(base),
        part.len() > 0,
        !splits(part.last(), true),
    ensures
        ({
            let path = joined(base, part, true);
            let p = prefix_len(base);
            &&& 4 <= p < path.len()
            &&& p <= base.len()
            &&& path.take(p) == base.take(p)
            &&& single_backslashes(path.skip(p))
            &&& path[p] == '\\'
            &&& path.last() == part.last()
        }),
{
    let p = prefix_len(base);
    let head = components(base.skip(p), false);
    let tail = components(part, true);
    let path = joined(base, part, true);
    lemma_prefix_bounds(base);
    lemma_components_single(base.skip(p), false);
    lemma_components_single(part, true);
    lemma_single_append(head, tail);
    assert(path =~= base.take(p) + (head + tail));
    assert(path.skip(p) =~= head + tail);
    assert(path.take(p) =~= base.take(p));
    assert((head + tail)[0] == '\\');
    assert((head + tail).last() == tail.last());
}

/// Below a path that was joined already, a name stands behind one backslash.
proof fn lemma_join_again(base: Seq<char>, part: Seq<char>, name: Seq<char>)
    requires
        is_verbatim(base),
        part.len() > 0,
        !splits(part.last(), true),
        name.len() > 0,
        forall|i: int| 0 <= i < name.len() ==> !splits(#[trigger] name[i], true),
    ensures
        joined(joined(base, part, true), name, true) == joined(base, part, true).push('\\') + name,
        joined(base, part, true).len() > 4,
        joined(base, part, true).last() == part.last(),
{
    let p = prefix_len(base);
    let path = joined(base, part, true);
    lemma_joined_body(base, part);
    lemma_prefix_grows(base, path);
    lemma_prefix_bounds(path);
    let q = prefix_len(path);
    let rest = path.skip(q);
    assert(rest =~= path.skip(p).skip(q - p));
    lemma_single_skip(path.skip(p), q - p);
    lemma_components_same(rest);
    assert(components(rest, false) == rest);
    lemma_components_name(name);
    assert(path.take(q) + rest =~= path);
    assert(path + (seq!['\\'] + name) =~= path.push('\\') + name);
}

proof fn lemma_prefix_bounds(path: Seq<char>)
    requires
        is_verbatim(path),
    ensures
        4 <= prefix_len(path) <= path.len(),
        prefix_len(path) < path.len() ==> path[prefix_len(path)] == '\\',
{
    lemma_backslash(path, 4);
    let first = backslash_from(path, 4);
    if first == 7 && path.len() > 7 {
        lemma_backslash(path, 8);
        let server = backslash_from(path, 8);
        if server < path.len() {
            lemma_backslash(path, server + 1);
        }
    }
}

/// A path that goes on behind the prefix of another has a prefix that is no
/// shorter.
proof fn lemma_prefix_grows(base: Seq<char>, path: Seq<char>)
    requires
        is_verbatim(base),
        prefix_len(base) < path.len(),
        path.take(prefix_len(base)) == base.take(prefix_len(base)),
        path[prefix_len(base)] == '\\',
    ensures
        is_verbatim(path),
        prefix_len(base) <= prefix_len(path),
{
    let p = prefix_len(base);
    lemma_prefix_bounds(base);
    assert forall|i: int| 0 <= i < p implies #[trigger] path[i] == base[i] by {
        assert(path.take(p)[i] == base.take(p)[i]);
    }
    lemma_backslash(base, 4);
    let first = backslash_from(base, 4);
    if first == 7 && base.len() > 7 && base[4] == 'U' && base[5] == 'N' && base[6] == 'C' {
        lemma_backslash(base, 8);
        let server = backslash_from(base, 8);
        assert(path[7] == '\\' && base[7] == '\\');
        lemma_backslash_at(path, 4, 7);
        if p == server {
            lemma_backslash_at(path, 8, p);
        } else {
            lemma_backslash(base, server + 1);
            lemma_backslash_at(path, 8, server);
            lemma_backslash_at(path, server + 1, p);
        }
        lemma_backslash(path, backslash_from(path, 8) + 1);
    } else {
        lemma_backslash_at(path, 4, p);
        lemma_backslash(path, 4);
        if p == 7 {
            lemma_backslash(path, 8);
            if backslash_from(path, 8) < path.len() {
                lemma_backslash(path, backslash_from(path, 8) + 1);
            }
        }
    }
}

/// An output directory that is not verbatim itself may lack just the backslash
/// that makes it so.
proof fn lemma_short_verbatim(out_dir: Seq<char>, name: Seq<char>)
    requires
        !is_verbatim(out_dir),
        is_verbatim(bin_path(out_dir, true)),
        name.len() > 0,
        forall|i: int| 0 <= i < name.len() ==> !splits(#[trigger] name[i], true),
    ensures
        joined(bin_path(out_dir, true), name, true) == bin_path(out_dir, true).push('\\') + name,
{
    reveal_strlit("install/bin");
    let bin = bin_path(out_dir, true);
    assert(out_dir.len() == 3) by {
        if out_dir.len() >= 4 {
            assert(bin[0] == out_dir[0] && bin[1] == out_dir[1] && bin[2] == out_dir[2] && bin[3]
                == out_dir[3]);
        }
    }
    lemma_backslash(bin, 4);
    assert(bin.len() == 15);
    assert(bin.skip(4) =~= BIN_DIRECTORY@);
    assert forall|i: int| 4 <= i < bin.len() implies #[trigger] bin[i] != '\\' by {
        assert(bin[i] == BIN_DIRECTORY@[i - 4]);
    }
    assert(prefix_len(bin) == bin.len());
    assert(bin.take(bin.len() as int) =~= bin);
    assert(bin.skip(bin.len() as int) =~= Seq::<char>::empty());
    lemma_components_name(name);
    assert(joined(bin, name, true) =~= bin.push('\\') + name);
}

/// Both executables stand in the directory of the executables, under their own
/// names, with the extension that executables have on Windows. So they differ.
pub proof fn law_executables_in_bin(out_dir: Seq<char>, windows: bool)
    ensures
        ({
            let directory = bin_path(out_dir, windows).push(separator(windows));
            let suffix = if windows {
                WINDOWS_SUFFIX@
            } else {
                Seq::empty()
            };
            &&& bin_file_path(out_dir, PROTOC@, windows) == directory + PROTOC@ + suffix
            &&& bin_file_path(out_dir, PROTOC_GEN_RUST_GRPC@, windows) == directory
                + PROTOC_GEN_RUST_GRPC@ + suffix
            &&& bin_file_path(out_dir, PROTOC@, windows) != bin_file_path(
                out_dir,
                PROTOC_GEN_RUST_GRPC@,
                windows,
            )
        }),
{
    reveal_strlit("install/bin");
    reveal_strlit("protoc");
    reveal_strlit("protoc-gen-rust-grpc");
    let bin = bin_path(out_dir, windows);
    let directory = bin.push(separator(windows));
    let suffix = if windows {
        WINDOWS_SUFFIX@
    } else {
        Seq::empty()
    };
    assert(BIN_DIRECTORY@.last() == 'n');
    if windows && is_verbatim(out_dir) {
        lemma_join_again(out_dir, BIN_DIRECTORY@, PROTOC@);
        lemma_join_again(out_dir, BIN_DIRECTORY@, PROTOC_GEN_RUST_GRPC@);
    } else if windows && is_verbatim(bin) {
        lemma_short_verbatim(out_dir, PROTOC@);
        lemma_short_verbatim(out_dir, PROTOC_GEN_RUST_GRPC@);
    }
    let one = bin_file_path(out_dir, PROTOC@, windows);
    let other = bin_file_path(out_dir, PROTOC_GEN_RUST_GRPC@, windows);
    assert(bin.len() > 2 && !is_separator(bin.last(), windows)) by {
        if !(windows && is_verbatim(out_dir)) {
            assert(bin.last() == BIN_DIRECTORY@.last());
        }
    }
    assert(one =~= directory + PROTOC@ + suffix);
    assert(other =~= directory + PROTOC_GEN_RUST_GRPC@ + suffix);
    assert(one.len() != other.len());
}

/// The directory of the executables is the output directory, followed by
/// `install/bin`, with at most one separator between them. There is none where the
/// output directory is empty, ends in a separator, or is a bare drive, and one
/// everywhere else. `windows` paths may use backslashes, and the law is about those
/// that are not verbatim.
pub proof fn law_bin_below_output(out_dir: Seq<char>, windows: bool)
    requires
        !windows || out_dir.len() < 4 || out_dir.take(4) != seq!['\\', '\\', '?', '\\'],
    ensures
        ({
            let path = bin_path(out_dir, windows);
            let tail = "install/bin"@;
            let n = out_dir.len() as int;
            let between = path.len() - n - tail.len();
            let closed = n == 0 || out_dir[n - 1] == '/' || (windows && out_dir[n - 1] == '\\');
            let drive = windows && n == 2 && out_dir[1] == ':' && ('a' <= out_dir[0] <= 'z' || 'A'
                <= out_dir[0] <= 'Z');
            &&& path.take(n) == out_dir
            &&& path.skip(n + between) == tail
            &&& closed || drive ==> between == 0
            &&& !closed && !drive ==> between == 1
            &&& between == 1 && windows ==> path[n] == '\\'
            &&& between == 1 && !windows ==> path[n] == '/'
        }),
{
    let path = bin_path(out_dir, windows);
    let n = out_dir.len() as int;
    if n >= 4 && is_verbatim(out_dir) {
        assert(out_dir.take(4) =~= seq!['\\', '\\', '?', '\\']);
    }
    assert(path.take(n) =~= out_dir);
    assert(path.skip(path.len() - "install/bin"@.len()) =~= "install/bin"@);
}

/// The executables are called `protoc` and `protoc-gen-rust-grpc`, with `.exe`
/// behind on Windows, and stand behind one separator in their directory.
pub proof fn law_names_of_executables(out_dir: Seq<char>)
    ensures
        bin_file_path(out_dir, PROTOC@, false) == bin_path(out_dir, false) + "/protoc"@,
        bin_file_path(out_dir, PROTOC_GEN_RUST_GRPC@, false) == bin_path(out_dir, false)
            + "/protoc-gen-rust-grpc"@,
        bin_file_path(out_dir, PROTOC@, true) == bin_path(out_dir, true) + "\\protoc.exe"@,
        bin_file_path(out_dir, PROTOC_GEN_RUST_GRPC@, true) == bin_path(out_dir, true)
            + "\\protoc-gen-rust-grpc.exe"@,
{
    law_executables_in_bin(out_dir, false);
    law_executables_in_bin(out_dir, true);
    reveal_strlit("protoc");
    reveal_strlit("protoc-gen-rust-grpc");
    reveal_strlit(".exe");
    reveal_strlit("/protoc");
    reveal_strlit("/protoc-gen-rust-grpc");
    reveal_strlit("\\protoc.exe");
    reveal_strlit("\\protoc-gen-rust-grpc.exe");
    assert(bin_file_path(out_dir, PROTOC@, false) =~= bin_path(out_dir, false) + "/protoc"@);
    assert(bin_file_path(out_dir, PROTOC_GEN_RUST_GRPC@, false) =~= bin_path(out_dir, false)
        + "/protoc-gen-rust-grpc"@);
    assert(bin_file_path(out_dir, PROTOC@, true) =~= bin_path(out_dir, true) + "\\protoc.exe"@);
    assert(bin_file_path(out_dir, PROTOC_GEN_RUST_GRPC@, true) =~= bin_path(out_dir, true)
        + "\\protoc-gen-rust-grpc.exe"@);
}

/// The components of `install/bin`.
proof fn lemma_bin_components()
    ensures
        components("install/bin"@, true) == "\\install\\bin"@,
{
    reveal_strlit("install/bin");
    reveal_strlit("\\install\\bin");
    let install = seq!['i', 'n', 's', 't', 'a', 'l', 'l'];
    let slash = install.push('/');
    let path = slash.push('b').push('i').push('n');
    lemma_components_name(install);
    assert(slash.drop_last() =~= install);
    assert(components(slash, true) == components(install, true));
    assert(slash.push('b').drop_last() =~= slash);
    assert(components(slash.push('b'), true) == components(slash, true).push('\\').push('b'));
    assert(slash.push('b').push('i').drop_last() =~= slash.push('b'));
    assert(components(slash.push('b').push('i'), true) == components(
        slash.push('b'),
        true,
    ).push('i'));
    assert(path.drop_last() =~= slash.push('b').push('i'));
    assert(components(path, true) == components(slash.push('b').push('i'), true).push('n'));
    assert(path =~= "install/bin"@);
    assert(components(path, true) =~= "\\install\\bin"@);
}

/// Below a verbatim path the components `install` and `bin` follow, each behind one
/// backslash. A path that has no two backslashes in a row behind its first four
/// characters stays as it is, but for a backslash at its end, which counts.
pub proof fn law_bin_below_verbatim(out_dir: Seq<char>)
    requires
        out_dir.len() >= 4,
        out_dir.take(4) == seq!['\\', '\\', '?', '\\'],
        forall|i: int|
            4 <= i < out_dir.len() - 1 ==> #[trigger] out_dir[i] != '\\' || out_dir[i + 1] != '\\',
        out_dir != seq!['\\', '\\', '?', '\\', 'U', 'N', 'C', '\\'],
    ensures
        out_dir.len() == 4 || out_dir.last() != '\\' ==> bin_path(out_dir, true) == out_dir
            + "\\install\\bin"@,
        out_dir.len() > 4 && out_dir.last() == '\\' ==> bin_path(out_dir, true) == out_dir
            + "install\\bin"@,
{
    let start = seq!['\\', '\\', '?', '\\'];
    assert(out_dir[0] == out_dir.take(4)[0] && out_dir[1] == out_dir.take(4)[1] && out_dir[2]
        == out_dir.take(4)[2] && out_dir[3] == out_dir.take(4)[3]);
    assert(is_verbatim(out_dir));
    lemma_prefix_bounds(out_dir);
    if out_dir.len() > 4 && prefix_len(out_dir) == out_dir.len() {
        lemma_prefix_end(out_dir);
    }
    lemma_bin_components();
    reveal_strlit("install\\bin");
    reveal_strlit("\\install\\bin");
    let p = prefix_len(out_dir);
    let rest = out_dir.skip(p);
    assert forall|i: int| 0 <= i < rest.len() - 1 implies !#[trigger] double_at(rest, i) by {
        assert(rest[i] == out_dir[i + p] && rest[i + 1] == out_dir[i + p + 1]);
    }
    lemma_components_same(rest);
    assert(out_dir.take(p) + rest =~= out_dir);
    if rest.len() > 0 {
        assert(rest.last() == out_dir.last());
        assert(out_dir.take(p) + rest.drop_last() =~= out_dir.drop_last());
    }
    if out_dir.len() == 4 || out_dir.last() != '\\' {
        assert(bin_path(out_dir, true) =~= out_dir + "\\install\\bin"@);
    } else {
        assert(bin_path(out_dir, true) =~= out_dir + "install\\bin"@);
    }
}

/// A prefix that is all of a path ends in no backslash.
proof fn lemma_prefix_end(path: Seq<char>)
    requires
        is_verbatim(path),
        path.len() > 4,
        prefix_len(path) == path.len(),
        path != seq!['\\', '\\', '?', '\\', 'U', 'N', 'C', '\\'],
    ensures
        path.last() != '\\',
{
    lemma_backslash(path, 4);
    let first = backslash_from(path, 4);
    if first == 7 && path.len() > 7 {
        if path.len() == 8 && path[4] == 'U' && path[5] == 'N' && path[6] == 'C' {
            assert(path =~= seq!['\\', '\\', '?', '\\', 'U', 'N', 'C', '\\']);
        }
        lemma_backslash(path, 8);
        let server = backslash_from(path, 8);
        if server < path.len() {
            lemma_backslash(path, server + 1);
        }
    }
}

/// Of a verbatim path, nothing but backslashes is left out, and the first four
/// characters stay.
pub proof fn law_verbatim_names_stay(out_dir: Seq<char>)
    requires
        out_dir.len() >= 4,
        out_dir.take(4) == seq!['\\', '\\', '?', '\\'],
    ensures
        ({
            let path = bin_path(out_dir, true);
            &&& path.len() >= 4 + "\\install\\bin"@.len()
            &&& path.take(4) == out_dir.take(4)
            &&& path.skip(path.len() - "\\install\\bin"@.len()) == "\\install\\bin"@
            &&& path.take(path.len() - "\\install\\bin"@.len()).filter(|c: char| c != '\\')
                == out_dir.filter(|c: char| c != '\\')
        }),
{
    assert(out_dir[0] == out_dir.take(4)[0] && out_dir[1] == out_dir.take(4)[1] && out_dir[2]
        == out_dir.take(4)[2] && out_dir[3] == out_dir.take(4)[3]);
    assert(is_verbatim(out_dir));
    lemma_prefix_bounds(out_dir);
    lemma_bin_components();
    let kept = |c: char| c != '\\';
    let p = prefix_len(out_dir);
    let rest = out_dir.skip(p);
    let front = out_dir.take(p) + components(rest, false);
    let path = bin_path(out_dir, true);
    let tail = "\\install\\bin"@;
    assert(path == front + tail);
    assert(path.take(4) =~= out_dir.take(4));
    assert(path.skip(path.len() - tail.len()) =~= tail);
    assert(path.take(path.len() - tail.len()) =~= front);
    lemma_components_filter(rest);
    Seq::filter_distributes_over_add(out_dir.take(p), components(rest, false), kept);
    Seq::filter_distributes_over_add(out_dir.take(p), rest, kept);
    assert(out_dir.take(p) + rest =~= out_dir);
}

proof fn lemma_components_filter(path: Seq<char>)
    ensures
        components(path, false).filter(|c: char| c != '\\') == path.filter(|c: char| c != '\\'),
    decreases path.len(),
{
    if path.len() > 0 {
        let front = path.drop_last();
        let c = path.last();
        let before = components(front, false);
        lemma_components_filter(front);
        lemma_filter_push(front, c);
        lemma_filter_push(before, c);
        lemma_filter_push(before, '\\');
        lemma_filter_push(before.push('\\'), c);
        assert(front.push(c) =~= path);
    } else {
        assert(components(path, false) =~= path);
    }
}

proof fn lemma_filter_push(text: Seq<char>, c: char)
    ensures
        text.push(c).filter(|c: char| c != '\\') == (if c != '\\' {
            text.filter(|c: char| c != '\\').push(c)
        } else {
            text.filter(|c: char| c != '\\')
        }),
{
    reveal(Seq::filter);
    assert(text.push(c).drop_last() =~= text);
}

} // verus!
