//! The OpenVPN program that comes with the client.

use vstd::prelude::*;
use crate::error::{view_error, view_result, Error, ErrorView, Result};
use crate::path::{
    absolute_on, cut_path, is_absolute, is_unrooted, join_for, join_on, lemma_walk_down, parent,
    parent_on, path_pieces, path_style, unrooted, verbatim_join, verbatim_parts, walk,
    windows_join, PathStyle,
};
use crate::split::{join, lemma_join_front, lemma_split_join, split};
use crate::text::{cat, chars, equal, is_text, starts_with, texts};

verus! {

/// Which OpenVPN program is used.
#[derive(Debug, PartialEq, Eq)]
pub enum OpenVpnRuntime {
    /// The one that comes with the client.
    Bundled,
    /// The one at a given path.
    External(String),
}

/// The model of which program is used.
pub enum RuntimeView {
    Bundled,
    External(Seq<char>),
}

impl View for OpenVpnRuntime {
    type V = RuntimeView;

    open spec fn view(&self) -> RuntimeView {
        match self {
            OpenVpnRuntime::Bundled => RuntimeView::Bundled,
            OpenVpnRuntime::External(path) => RuntimeView::External(path@),
        }
    }
}

impl OpenVpnRuntime {
    /// The program at a given path.
    pub fn external(path: String) -> (r: OpenVpnRuntime)
        ensures
            r@ == RuntimeView::External(path@),
    {
        OpenVpnRuntime::External(path)
    }

    /// A copy.
    pub fn copy(&self) -> (r: OpenVpnRuntime)
        ensures
            r@ == self@,
    {
        match self {
            OpenVpnRuntime::Bundled => OpenVpnRuntime::Bundled,
            OpenVpnRuntime::External(path) => OpenVpnRuntime::External(path.clone()),
        }
    }
}

/// A file of the bundled program.
#[derive(Debug)]
pub struct BundledRuntimeFile {
    pub relative_path: String,
    pub bytes: Vec<u8>,
    pub executable: bool,
}

/// Whether a file of the bundled program is run, given its path and the access
/// rights that it has where it comes from.
pub open spec fn runnable(relative_path: Seq<char>, mode: u32) -> bool {
    ||| relative_path == "acvc-openvpn"@
    ||| relative_path == "client.up"@
    ||| relative_path == "client.down"@
    ||| mode & 0o111 != 0
}

/// Whether a file of the bundled program is run.
pub fn is_executable(relative_path: &str, mode: u32) -> (r: bool)
    ensures
        r == runnable(relative_path@, mode),
{
    equal(relative_path, "acvc-openvpn") || equal(relative_path, "client.up") || equal(
        relative_path,
        "client.down",
    ) || mode & 0o111 != 0
}

/// The bundled program.
#[derive(Debug)]
pub struct BundledRuntime {
    pub target: String,
    pub id: String,
    pub files: Vec<BundledRuntimeFile>,
}

/// Whether there is a bundled program.
pub fn bundled_runtime_available(bundled: &Option<BundledRuntime>) -> (r: bool)
    ensures
        r == (*bundled is Some),
{
    bundled.is_some()
}

/// The kind of machine that a bundled program would be for: the one that it is
/// for, or the one that the client was built for.
pub fn bundled_runtime_target(bundled: &Option<BundledRuntime>, built_for: &str) -> (r: String)
    ensures
        r@ == (match *bundled {
            Some(runtime) => runtime.target@,
            None => built_for@,
        }),
{
    match bundled {
        Some(runtime) => runtime.target.clone(),
        None => built_for.to_owned(),
    }
}

/// How the program is made ready.
#[derive(Debug)]
pub enum DeployPlan {
    /// It is used where it is.
    Use(String),
    /// It is unpacked.
    Extract,
}

/// Decides how the program is made ready, on a machine of the kind `target`
/// and with or without a bundled program.
pub fn deploy_openvpn_runtime(runtime: &OpenVpnRuntime, target: &str, bundled: bool) -> (r: Result<
    DeployPlan,
>)
    ensures
        match (runtime@, r) {
            (RuntimeView::External(path), Ok(DeployPlan::Use(used))) => used@ == path,
            (RuntimeView::Bundled, Ok(DeployPlan::Extract)) => bundled,
            (RuntimeView::Bundled, Err(e)) => !bundled && e@ == (
            ErrorView::BundledOpenVpnUnavailable { target: target@ }),
            _ => false,
        },
{
    match runtime {
        OpenVpnRuntime::External(path) => Ok(DeployPlan::Use(path.clone())),
        OpenVpnRuntime::Bundled => if bundled {
            Ok(DeployPlan::Extract)
        } else {
            Err(Error::BundledOpenVpnUnavailable { target: target.to_owned() })
        },
    }
}

/// Whether a path leads downwards by names: it has no root, none of its parts
/// leads upwards, and the first is not the directory itself.
pub open spec fn plain_relative(path: Seq<char>, windows: bool) -> bool {
    let parts = path_pieces(path, windows);
    &&& unrooted(path, windows)
    &&& parts[0] != "."@
    &&& forall|i: int| 0 <= i < parts.len() ==> #[trigger] parts[i] != ".."@
}

/// Where a file of the bundled program is written.
pub open spec fn destination_of(
    root: Seq<char>,
    relative_path: Seq<char>,
    windows: bool,
) -> std::result::Result<Seq<char>, ErrorView> {
    if absolute_on(relative_path, windows) {
        Err(
            ErrorView::BundledOpenVpnInvalid(
                "bundled runtime path is absolute: "@ + relative_path,
            ),
        )
    } else if !plain_relative(relative_path, windows) {
        Err(
            ErrorView::BundledOpenVpnInvalid("bundled runtime path is invalid: "@ + relative_path),
        )
    } else {
        Ok(join_on(root, relative_path, windows))
    }
}

/// Whether a path leads downwards by names.
fn is_plain_relative(path: &str, windows: bool) -> (r: bool)
    ensures
        r == plain_relative(path@, windows),
{
    if !is_unrooted(path, windows) {
        return false;
    }
    let parts = cut_path(path, windows);
    let ghost all = texts(parts@);
    assert(all[0] == parts@[0]@);
    if is_text(parts[0].as_slice(), ".") {
        return false;
    }
    let mut i: usize = 0;
    while i < parts.len()
        invariant
            i <= parts@.len(),
            all == texts(parts@),
            all == path_pieces(path@, windows),
            all[0] != "."@,
            unrooted(path@, windows),
            forall|j: int| 0 <= j < i ==> #[trigger] all[j] != ".."@,
        decreases parts@.len() - i,
    {
        assert(all[i as int] == parts@[i as int]@);
        if is_text(parts[i].as_slice(), "..") {
            return false;
        }
        i += 1;
    }
    true
}

/// Where a file of the bundled program is written, below the directory `root`.
pub fn checked_destination(root: &str, relative_path: &str, windows: bool) -> (r: Result<String>)
    ensures
        view_result(r) == destination_of(root@, relative_path@, windows),
{
    if is_absolute(relative_path, windows) {
        return Err(
            Error::BundledOpenVpnInvalid(cat("bundled runtime path is absolute: ", relative_path)),
        );
    }
    if !is_plain_relative(relative_path, windows) {
        return Err(
            Error::BundledOpenVpnInvalid(cat("bundled runtime path is invalid: ", relative_path)),
        );
    }
    Ok(join_for(root, relative_path, windows))
}

/// What is done to write a file of the bundled program.
#[derive(Debug, PartialEq, Eq)]
pub struct ExtractStep {
    /// The directory that must be there.
    pub parent: Option<String>,
    /// The file to write.
    pub destination: String,
    /// What it holds.
    pub bytes: Vec<u8>,
    /// The permissions of the file.
    pub mode: u32,
}

/// The directory that the bundled program is unpacked to.
pub fn runtime_dir(tempdir: &str, windows: bool) -> (r: String)
    ensures
        r@ == join_on(tempdir@, "openvpn"@, windows),
{
    join_for(tempdir, "openvpn", windows)
}

/// What is done to write a file of the bundled program below `runtime_dir`.
pub fn extract_bundled_runtime(
    runtime_dir: &str,
    file: BundledRuntimeFile,
    windows: bool,
) -> (r: Result<ExtractStep>)
    ensures
        match destination_of(runtime_dir@, file.relative_path@, windows) {
            Ok(destination) => r matches Ok(step) && step.destination@ == destination && (
            match step.parent {
                Some(dir) => parent_on(destination, windows) == Some(dir@),
                None => parent_on(destination, windows) is None,
            }) && step.bytes@ == file.bytes@ && step.mode == (if file.executable {
                0o755u32
            } else {
                0o644u32
            }),
            Err(e) => r matches Err(found) && found@ == e,
        },
{
    match checked_destination(runtime_dir, file.relative_path.as_str(), windows) {
        Err(e) => Err(e),
        Ok(destination) => Ok(
            ExtractStep {
                parent: parent(destination.as_str(), windows),
                destination,
                bytes: file.bytes,
                mode: if file.executable {
                    0o755
                } else {
                    0o644
                },
            },
        ),
    }
}

/// The program among the unpacked files.
pub fn bundled_binary(runtime_dir: &str, windows: bool) -> (r: String)
    ensures
        r@ == join_on(runtime_dir@, "acvc-openvpn"@, windows),
{
    join_for(runtime_dir, "acvc-openvpn", windows)
}

/// Checks that the program is among the unpacked files.
pub fn check_extracted(binary_is_file: bool) -> (r: Result<()>)
    ensures
        view_error(r) == (if binary_is_file {
            Ok(())
        } else {
            Err(
                ErrorView::BundledOpenVpnInvalid("bundled runtime did not contain acvc-openvpn"@),
            )
        }),
{
    if !binary_is_file {
        return Err(
            Error::BundledOpenVpnInvalid("bundled runtime did not contain acvc-openvpn".to_owned()),
        );
    }
    Ok(())
}

/// Every file of the bundled program is written below the directory it is
/// unpacked to: its path continues that of the directory, or, for a verbatim
/// directory on Windows, its parts continue those of the directory; and no part
/// of what follows leads upwards.
pub proof fn lemma_extraction_stays_inside(
    root: Seq<char>,
    relative_path: Seq<char>,
    windows: bool,
)
    requires
        destination_of(root, relative_path, windows) is Ok,
    ensures
        ({
            let destination = destination_of(root, relative_path, windows)->Ok_0;
            let rest = destination.skip(root.len() as int);
            let divider = if windows {
                '\\'
            } else {
                '/'
            };
            let more = path_pieces(relative_path, windows);
            if path_style(root, windows) == PathStyle::Verbatim && relative_path.len() > 0 {
                let parts = walk(verbatim_parts(root), more);
                &&& destination == verbatim_join(root, relative_path)
                &&& verbatim_parts(root).len() <= parts.len()
                &&& parts.take(verbatim_parts(root).len() as int) == verbatim_parts(root)
            } else {
                &&& starts_with(destination, root)
                &&& rest == relative_path || rest == seq![divider] + relative_path
            }
        }),
        forall|i: int|
            0 <= i < path_pieces(relative_path, windows).len() ==> #[trigger] path_pieces(
                relative_path,
                windows,
            )[i] != ".."@,
{
    reveal(windows_join);
    let destination = destination_of(root, relative_path, windows)->Ok_0;
    let more = path_pieces(relative_path, windows);
    if path_style(root, windows) == PathStyle::Verbatim && relative_path.len() > 0 {
        reveal_strlit("..");
        assert(".."@ =~= seq!['.', '.']);
        lemma_walk_down(verbatim_parts(root), more);
    } else {
        assert(destination.subrange(0, root.len() as int) =~= root);
        let rest = destination.skip(root.len() as int);
        if destination.len() == root.len() + relative_path.len() {
            assert(rest =~= relative_path);
        } else if windows {
            assert(rest =~= seq!['\\'] + relative_path);
        } else {
            assert(rest =~= seq!['/'] + relative_path);
        }
    }
}

/// The files that are run: the program, its two scripts, and what may be run
/// where it comes from.
pub proof fn lemma_runnable_files(relative_path: Seq<char>, mode: u32)
    ensures
        runnable("acvc-openvpn"@, mode),
        runnable("client.up"@, mode),
        runnable("client.down"@, mode),
        mode & 73 != 0 ==> runnable(relative_path, mode),
        mode & 73 == 0 && relative_path != "acvc-openvpn"@ && relative_path != "client.up"@
            && relative_path != "client.down"@ ==> !runnable(relative_path, mode),
{
}

/// A file whose path is made of names is written below the directory that the
/// program is unpacked to, however deep it lies.
pub proof fn lemma_named_files_are_extracted(root: Seq<char>, names: Seq<Seq<char>>)
    requires
        root.len() > 0,
        root.last() != '/',
        names.len() > 0,
        forall|i: int|
            0 <= i < names.len() ==> (#[trigger] names[i]).len() > 0 && !names[i].contains('/')
                && names[i] != ".."@ && names[i] != "."@,
    ensures
        destination_of(root, join(names, "/"@), false) == Ok::<Seq<char>, ErrorView>(
            root + "/"@ + join(names, "/"@),
        ),
{
    let path = join(names, "/"@);
    reveal_strlit("/");
    assert("/"@ =~= seq!['/']);
    lemma_split_join(names, '/');
    lemma_join_front(names, "/"@);
    assert(names[0].contains(names[0][0]));
    assert(path.take(names[0].len() as int)[0] == path[0]);
    assert(root.push('/') + path =~= root + "/"@ + path);
}

/// A path that leads upwards anywhere, or begins at the root, is refused, and
/// named in the refusal.
pub proof fn lemma_straying_files_are_refused(root: Seq<char>, path: Seq<char>, i: int)
    ensures
        path.len() > 0 && path[0] == '/' ==> destination_of(root, path, false) == Err::<
            Seq<char>,
            ErrorView,
        >(ErrorView::BundledOpenVpnInvalid("bundled runtime path is absolute: "@ + path)),
        0 <= i < split(path, '/').len() && split(path, '/')[i] == ".."@ && !(path.len() > 0
            && path[0] == '/') ==> destination_of(root, path, false) == Err::<Seq<char>, ErrorView>(
            ErrorView::BundledOpenVpnInvalid("bundled runtime path is invalid: "@ + path),
        ),
{
}

} // verus!
