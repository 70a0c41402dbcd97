//! Finding the OpenVPN program.

use vstd::prelude::*;
use crate::error::{view_error, view_result, Error, ErrorView, Result};
use crate::path::{join_for, join_on, parent, parent_on};
use crate::text::{cat, cat3, strings};

verus! {

/// What the file system has at a path.
#[derive(Clone, Copy, Debug, PartialEq, Eq, Structural)]
pub enum FileKind {
    Missing,
    File,
    Other,
}

/// Where the program was named.
#[derive(Clone, Copy, Debug, PartialEq, Eq, Structural)]
pub enum OpenVpnRuntimeSource {
    Explicit,
    Environment,
    Bundled,
}

/// The OpenVPN program and where it was named.
#[derive(Debug, PartialEq, Eq)]
pub struct OpenVpnRuntime {
    pub binary: String,
    pub source: OpenVpnRuntimeSource,
}

/// The model of the program and where it was named.
pub struct FoundView {
    pub binary: Seq<char>,
    pub source: OpenVpnRuntimeSource,
}

impl View for OpenVpnRuntime {
    type V = FoundView;

    open spec fn view(&self) -> FoundView {
        FoundView { binary: self.binary@, source: self.source }
    }
}

/// The refusal of a path that is no file; `label` names what it should be.
pub open spec fn file_at(path: Seq<char>, kind: FileKind, label: Seq<char>) -> std::result::Result<
    (),
    ErrorView,
> {
    match kind {
        FileKind::File => Ok(()),
        FileKind::Missing => Err(
            ErrorView::InvalidConfig(label + " does not exist: "@ + path),
        ),
        FileKind::Other => Err(ErrorView::InvalidConfig(label + " is not a file: "@ + path)),
    }
}

/// Checks that there is a file at a path; `label` names what it should be.
pub fn validate_file(path: &str, kind: FileKind, label: &str) -> (r: Result<()>)
    ensures
        view_error(r) == file_at(path@, kind, label@),
{
    match kind {
        FileKind::File => Ok(()),
        FileKind::Missing => Err(Error::InvalidConfig(cat3(label, " does not exist: ", path))),
        FileKind::Other => Err(Error::InvalidConfig(cat3(label, " is not a file: ", path))),
    }
}

/// The program at a path.
pub open spec fn program_at(
    path: Seq<char>,
    kind: FileKind,
    source: OpenVpnRuntimeSource,
) -> std::result::Result<FoundView, ErrorView> {
    match file_at(path, kind, "OpenVPN binary"@) {
        Ok(_) => Ok(FoundView { binary: path, source }),
        Err(e) => Err(e),
    }
}

/// The program at a path.
fn runtime_from_path(path: &str, kind: FileKind, source: OpenVpnRuntimeSource) -> (r: Result<
    OpenVpnRuntime,
>)
    ensures
        view_result(r) == program_at(path@, kind, source),
{
    match validate_file(path, kind, "OpenVPN binary") {
        Ok(()) => Ok(OpenVpnRuntime { binary: path.to_owned(), source }),
        Err(e) => Err(e),
    }
}

/// Paths and what the file system has at them.
pub open spec fn view_kinds(list: Seq<(String, FileKind)>) -> Seq<(Seq<char>, FileKind)> {
    list.map_values(|entry: (String, FileKind)| (entry.0@, entry.1))
}

/// The first path with a file.
pub open spec fn first_file(list: Seq<(Seq<char>, FileKind)>) -> Option<Seq<char>>
    decreases list.len(),
{
    if list.len() == 0 {
        None
    } else if list[0].1 == FileKind::File {
        Some(list[0].0)
    } else {
        first_file(list.skip(1))
    }
}

/// The model of an optional path and what the file system has at it.
pub open spec fn view_named(named: Option<(String, FileKind)>) -> Option<(Seq<char>, FileKind)> {
    match named {
        Some((path, kind)) => Some((path@, kind)),
        None => None,
    }
}

/// The model of the places to look for a bundled program.
pub open spec fn view_candidates(
    candidates: Result<Vec<(String, FileKind)>>,
) -> std::result::Result<Seq<(Seq<char>, FileKind)>, ErrorView> {
    match candidates {
        Ok(list) => Ok(view_kinds(list@)),
        Err(e) => Err(e@),
    }
}

/// The program to use: the one that was asked for, else the one that the
/// environment names, else the first bundled one.
pub open spec fn discovered(
    explicit: Option<(Seq<char>, FileKind)>,
    environment: Option<(Seq<char>, FileKind)>,
    candidates: std::result::Result<Seq<(Seq<char>, FileKind)>, ErrorView>,
) -> std::result::Result<FoundView, ErrorView> {
    match (explicit, environment) {
        (Some((path, kind)), _) => program_at(path, kind, OpenVpnRuntimeSource::Explicit),
        (None, Some((path, kind))) => program_at(path, kind, OpenVpnRuntimeSource::Environment),
        (None, None) => match candidates {
            Err(e) => Err(e),
            Ok(list) => match first_file(list) {
                Some(path) => Ok(
                    FoundView { binary: path, source: OpenVpnRuntimeSource::Bundled },
                ),
                None => Err(ErrorView::OpenVpnNotFound),
            },
        },
    }
}

impl OpenVpnRuntime {
    /// The program to use, given the path that was asked for, the one that the
    /// environment names and the places to look for a bundled program, each
    /// with what the file system has there.
    pub fn discover(
        explicit: Option<(String, FileKind)>,
        environment: Option<(String, FileKind)>,
        candidates: Result<Vec<(String, FileKind)>>,
    ) -> (r: Result<OpenVpnRuntime>)
        ensures
            view_result(r) == discovered(
                view_named(explicit),
                view_named(environment),
                view_candidates(candidates),
            ),
    {
        if let Some((path, kind)) = explicit {
            return runtime_from_path(path.as_str(), kind, OpenVpnRuntimeSource::Explicit);
        }
        if let Some((path, kind)) = environment {
            return runtime_from_path(path.as_str(), kind, OpenVpnRuntimeSource::Environment);
        }
        let list = match candidates {
            Ok(list) => list,
            Err(e) => {
                return Err(e);
            },
        };
        let ghost all = view_kinds(list@);
        let mut i: usize = 0;
        assert(all.skip(0) == all);
        while i < list.len()
            invariant
                i <= list@.len(),
                all == view_kinds(list@),
                explicit is None,
                environment is None,
                candidates == Ok::<Vec<(String, FileKind)>, Error>(list),
                first_file(all) == first_file(all.skip(i as int)),
            decreases list@.len() - i,
        {
            assert(all.skip(i as int)[0] == (list@[i as int].0@, list@[i as int].1));
            assert(all.skip(i as int).skip(1) == all.skip(i + 1));
            if list[i].1 == FileKind::File {
                return runtime_from_path(
                    list[i].0.as_str(),
                    FileKind::File,
                    OpenVpnRuntimeSource::Bundled,
                );
            }
            i += 1;
        }
        Err(Error::OpenVpnNotFound)
    }
}

/// The directories that may hold a bundled program, beside the directory of
/// the client.
pub open spec fn bundle_dirs(exe_dir: Seq<char>, windows: bool) -> Seq<Seq<char>> {
    let above = join_on(join_on(exe_dir, ".."@, windows), "libexec"@, windows);
    seq![
        join_on(exe_dir, "openvpn"@, windows),
        join_on(join_on(exe_dir, "resources"@, windows), "openvpn"@, windows),
        join_on(join_on(exe_dir, "runtime"@, windows), "openvpn"@, windows),
        join_on(join_on(above, "awsvpn"@, windows), "openvpn"@, windows),
    ]
}

/// The names of the program.
pub open spec fn program_names(windows: bool) -> Seq<Seq<char>> {
    if windows {
        seq!["acvc-openvpn.exe"@, "openvpn.exe"@]
    } else {
        seq!["acvc-openvpn"@, "openvpn"@]
    }
}

/// The places to look for a bundled program, in order.
pub open spec fn candidate_paths(exe_dir: Seq<char>, windows: bool) -> Seq<Seq<char>> {
    let dirs = bundle_dirs(exe_dir, windows);
    let names = program_names(windows);
    Seq::new(8, |i: int| join_on(dirs[i / 2], names[i % 2], windows))
}

/// The directories that may hold a bundled program.
fn runtime_dirs(exe_dir: &str, windows: bool) -> (r: Vec<String>)
    ensures
        strings(r@) == bundle_dirs(exe_dir@, windows),
{
    let mut dirs: Vec<String> = Vec::new();
    dirs.push(join_for(exe_dir, "openvpn", windows));
    let resources = join_for(exe_dir, "resources", windows);
    dirs.push(join_for(resources.as_str(), "openvpn", windows));
    let runtime = join_for(exe_dir, "runtime", windows);
    dirs.push(join_for(runtime.as_str(), "openvpn", windows));
    let up = join_for(exe_dir, "..", windows);
    let above = join_for(up.as_str(), "libexec", windows);
    let own = join_for(above.as_str(), "awsvpn", windows);
    dirs.push(join_for(own.as_str(), "openvpn", windows));
    assert(strings(dirs@) =~= bundle_dirs(exe_dir@, windows));
    dirs
}

/// The names of the program.
fn binary_names(windows: bool) -> (r: Vec<String>)
    ensures
        strings(r@) == program_names(windows),
{
    let mut names: Vec<String> = Vec::new();
    if windows {
        names.push("acvc-openvpn.exe".to_owned());
        names.push("openvpn.exe".to_owned());
    } else {
        names.push("acvc-openvpn".to_owned());
        names.push("openvpn".to_owned());
    }
    assert(strings(names@) =~= program_names(windows));
    names
}

/// The places to look for a bundled program, in order.
fn candidates_in(exe_dir: &str, windows: bool) -> (r: Vec<String>)
    ensures
        strings(r@) == candidate_paths(exe_dir@, windows),
{
    let dirs = runtime_dirs(exe_dir, windows);
    let names = binary_names(windows);
    let ghost want = candidate_paths(exe_dir@, windows);
    assert(strings(dirs@).len() == dirs@.len() && strings(names@).len() == names@.len());
    let mut out: Vec<String> = Vec::new();
    let mut i: usize = 0;
    while i < 8
        invariant
            i <= 8,
            dirs@.len() == 4,
            names@.len() == 2,
            strings(dirs@) == bundle_dirs(exe_dir@, windows),
            strings(names@) == program_names(windows),
            want == candidate_paths(exe_dir@, windows),
            strings(out@) == want.take(i as int),
        decreases 8 - i,
    {
        assert(strings(dirs@)[i as int / 2] == dirs@[i as int / 2]@);
        assert(strings(names@)[i as int % 2] == names@[i as int % 2]@);
        let ghost before = strings(out@);
        out.push(join_for(dirs[i / 2].as_str(), names[i % 2].as_str(), windows));
        i += 1;
        assert(strings(out@) =~= before.push(want[i - 1]));
        assert(strings(out@) =~= want.take(i as int));
    }
    assert(want.take(8) =~= want);
    out
}

/// The places to look for a bundled program, given the path of the client, or
/// why it is not known.
pub fn bundled_candidates(exe: std::result::Result<String, String>, windows: bool) -> (r: Result<
    Vec<String>,
>)
    ensures
        match exe {
            Err(cause) => r matches Err(e) && e@ == ErrorView::OpenVpnProcess(cause@),
            Ok(exe) => match parent_on(exe@, windows) {
                Some(dir) => r matches Ok(list) && strings(list@) == candidate_paths(dir, windows),
                None => r matches Err(e) && e@ == ErrorView::InvalidConfig(
                    "could not determine executable directory for "@ + exe@,
                ),
            },
        },
{
    let exe = match exe {
        Ok(exe) => exe,
        Err(cause) => {
            return Err(Error::OpenVpnProcess(cause));
        },
    };
    let exe_dir = match parent(exe.as_str(), windows) {
        Some(dir) => dir,
        None => {
            return Err(
                Error::InvalidConfig(
                    cat("could not determine executable directory for ", exe.as_str()),
                ),
            );
        },
    };
    Ok(candidates_in(exe_dir.as_str(), windows))
}

/// A path that was asked for is used, whatever the environment and the client
/// bring.
pub proof fn lemma_explicit_path_wins(
    path: Seq<char>,
    environment: Option<(Seq<char>, FileKind)>,
    candidates: std::result::Result<Seq<(Seq<char>, FileKind)>, ErrorView>,
)
    ensures
        discovered(Some((path, FileKind::File)), environment, candidates) == Ok::<
            FoundView,
            ErrorView,
        >(FoundView { binary: path, source: OpenVpnRuntimeSource::Explicit }),
{
}

/// A path that was asked for and is no file is an error: nothing else is tried
/// in its place.
pub proof fn lemma_named_program_must_be_a_file(
    path: Seq<char>,
    environment: Option<(Seq<char>, FileKind)>,
    candidates: std::result::Result<Seq<(Seq<char>, FileKind)>, ErrorView>,
)
    ensures
        discovered(Some((path, FileKind::Missing)), environment, candidates) == Err::<
            FoundView,
            ErrorView,
        >(ErrorView::InvalidConfig("OpenVPN binary does not exist: "@ + path)),
        discovered(Some((path, FileKind::Other)), environment, candidates) == Err::<
            FoundView,
            ErrorView,
        >(ErrorView::InvalidConfig("OpenVPN binary is not a file: "@ + path)),
        discovered(None, Some((path, FileKind::Missing)), candidates) == Err::<
            FoundView,
            ErrorView,
        >(ErrorView::InvalidConfig("OpenVPN binary does not exist: "@ + path)),
        discovered(None, Some((path, FileKind::File)), candidates) == Ok::<FoundView, ErrorView>(
            FoundView { binary: path, source: OpenVpnRuntimeSource::Environment },
        ),
{
    reveal_strlit("OpenVPN binary");
    reveal_strlit(" does not exist: ");
    reveal_strlit(" is not a file: ");
    reveal_strlit("OpenVPN binary does not exist: ");
    reveal_strlit("OpenVPN binary is not a file: ");
    assert("OpenVPN binary"@ + " does not exist: "@ =~= "OpenVPN binary does not exist: "@);
    assert("OpenVPN binary"@ + " is not a file: "@ =~= "OpenVPN binary is not a file: "@);
}

/// Without a path that was named, the first bundled program that is there is
/// used, wherever in the list it stands.
pub proof fn lemma_first_bundled_program_is_used(list: Seq<(Seq<char>, FileKind)>, k: int)
    requires
        0 <= k < list.len(),
        list[k].1 == FileKind::File,
        forall|j: int| 0 <= j < k ==> (#[trigger] list[j]).1 != FileKind::File,
    ensures
        discovered(None, None, Ok(list)) == Ok::<FoundView, ErrorView>(
            FoundView { binary: list[k].0, source: OpenVpnRuntimeSource::Bundled },
        ),
    decreases list.len(),
{
    if k > 0 {
        let rest = list.skip(1);
        assert(forall|j: int| 0 <= j < rest.len() ==> #[trigger] rest[j] == list[j + 1]);
        lemma_first_bundled_program_is_used(rest, k - 1);
    }
}

/// Without any program there is an error.
pub proof fn lemma_no_program(list: Seq<(Seq<char>, FileKind)>)
    requires
        forall|j: int| 0 <= j < list.len() ==> (#[trigger] list[j]).1 != FileKind::File,
    ensures
        discovered(None, None, Ok(list)) == Err::<FoundView, ErrorView>(ErrorView::OpenVpnNotFound),
    decreases list.len(),
{
    if list.len() > 0 {
        let rest = list.skip(1);
        assert(forall|j: int| 0 <= j < rest.len() ==> #[trigger] rest[j] == list[j + 1]);
        lemma_no_program(rest);
    }
}

/// The places to look for a bundled program, beside the directory of the
/// client, in their order.
pub proof fn lemma_bundle_places(dir: Seq<char>)
    requires
        dir.len() > 0,
        dir.last() != '/',
    ensures
        candidate_paths(dir, false) == seq![
            dir + "/openvpn/acvc-openvpn"@,
            dir + "/openvpn/openvpn"@,
            dir + "/resources/openvpn/acvc-openvpn"@,
            dir + "/resources/openvpn/openvpn"@,
            dir + "/runtime/openvpn/acvc-openvpn"@,
            dir + "/runtime/openvpn/openvpn"@,
            dir + "/../libexec/awsvpn/openvpn/acvc-openvpn"@,
            dir + "/../libexec/awsvpn/openvpn/openvpn"@,
        ],
{
    reveal_strlit("openvpn");
    reveal_strlit("acvc-openvpn");
    reveal_strlit("resources");
    reveal_strlit("runtime");
    reveal_strlit("..");
    reveal_strlit("libexec");
    reveal_strlit("awsvpn");
    reveal_strlit("/openvpn/acvc-openvpn");
    reveal_strlit("/openvpn/openvpn");
    reveal_strlit("/resources/openvpn/acvc-openvpn");
    reveal_strlit("/resources/openvpn/openvpn");
    reveal_strlit("/runtime/openvpn/acvc-openvpn");
    reveal_strlit("/runtime/openvpn/openvpn");
    reveal_strlit("/../libexec/awsvpn/openvpn/acvc-openvpn");
    reveal_strlit("/../libexec/awsvpn/openvpn/openvpn");
    let found = candidate_paths(dir, false);
    let dirs = bundle_dirs(dir, false);
    let above = dir.push('/') + ".."@;
    let libexec = above.push('/') + "libexec"@;
    let own = libexec.push('/') + "awsvpn"@;
    assert(join_on(dir, ".."@, false) == above);
    assert(join_on(above, "libexec"@, false) == libexec);
    assert(join_on(libexec, "awsvpn"@, false) == own);
    assert(dirs[0] == dir.push('/') + "openvpn"@);
    assert(dirs[1] == (dir.push('/') + "resources"@).push('/') + "openvpn"@);
    assert(dirs[2] == (dir.push('/') + "runtime"@).push('/') + "openvpn"@);
    assert(dirs[3] == own.push('/') + "openvpn"@);
    assert(found[0] =~= dir + "/openvpn/acvc-openvpn"@);
    assert(found[1] =~= dir + "/openvpn/openvpn"@);
    assert(found[2] =~= dir + "/resources/openvpn/acvc-openvpn"@);
    assert(found[3] =~= dir + "/resources/openvpn/openvpn"@);
    assert(found[4] =~= dir + "/runtime/openvpn/acvc-openvpn"@);
    assert(found[5] =~= dir + "/runtime/openvpn/openvpn"@);
    assert(found[6] =~= dir + "/../libexec/awsvpn/openvpn/acvc-openvpn"@);
    assert(found[7] =~= dir + "/../libexec/awsvpn/openvpn/openvpn"@);
}

/// The names of the program, of which that of the official client comes first.
pub proof fn lemma_program_names(dir: Seq<char>, windows: bool)
    ensures
        program_names(windows).len() == 2,
        program_names(true) == seq!["acvc-openvpn.exe"@, "openvpn.exe"@],
        program_names(false) == seq!["acvc-openvpn"@, "openvpn"@],
        candidate_paths(dir, windows).len() == 8,
        forall|i: int|
            0 <= i < 4 ==> #[trigger] candidate_paths(dir, windows)[2 * i] == join_on(
                bundle_dirs(dir, windows)[i],
                program_names(windows)[0],
                windows,
            ) && candidate_paths(dir, windows)[2 * i + 1] == join_on(
                bundle_dirs(dir, windows)[i],
                program_names(windows)[1],
                windows,
            ),
{
}

} // verus!
