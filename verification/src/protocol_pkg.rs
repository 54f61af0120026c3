//! Where the browser's protocol client comes from: a package that is served as
//! it is, one that is built first, or a refusal that says what to do.

use vstd::prelude::*;

use crate::paths::{path_under, under};
use crate::text::{
    chars_of, concat2, concat3, concat4, concat5, join, joined, opt_str, split, split_on,
    string_of, texts,
};

verus! {

/// Where the browser fetches the package from.
pub const ROUTE_PREFIX: &'static str = "/_agui/protocol";

/// The module that the page imports.
pub const JS_FILE: &'static str = "ag_ui_wasm_client.js";

/// The compiled client that the module instantiates.
pub const WASM_FILE: &'static str = "ag_ui_wasm_client_bg.wasm";

/// Why the protocol client cannot be served.
#[derive(Debug, PartialEq, Eq)]
pub enum ProtocolPkgError {
    Missing { dir: String, missing: &'static str, hint: String },
    NotACheckout { crate_dir: String },
    Spawn { crate_dir: String, source: String },
    Build { crate_dir: String, status: String, stderr_tail: String },
}

/// An error in contracts.
pub enum PkgErrorView {
    Missing { dir: Seq<char>, missing: Seq<char>, hint: Seq<char> },
    NotACheckout { crate_dir: Seq<char> },
    Spawn { crate_dir: Seq<char>, source: Seq<char> },
    Build { crate_dir: Seq<char>, status: Seq<char>, stderr_tail: Seq<char> },
}

impl View for ProtocolPkgError {
    type V = PkgErrorView;

    open spec fn view(&self) -> PkgErrorView {
        match self {
            ProtocolPkgError::Missing { dir, missing, hint } => PkgErrorView::Missing {
                dir: dir@,
                missing: missing@,
                hint: hint@,
            },
            ProtocolPkgError::NotACheckout { crate_dir } => PkgErrorView::NotACheckout {
                crate_dir: crate_dir@,
            },
            ProtocolPkgError::Spawn { crate_dir, source } => PkgErrorView::Spawn {
                crate_dir: crate_dir@,
                source: source@,
            },
            ProtocolPkgError::Build { crate_dir, status, stderr_tail } => PkgErrorView::Build {
                crate_dir: crate_dir@,
                status: status@,
                stderr_tail: stderr_tail@,
            },
        }
    }
}

impl PkgErrorView {
    /// What the error says.
    pub open spec fn text(self) -> Seq<char> {
        match self {
            PkgErrorView::Missing { dir, missing, hint } => "protocol package "@ + dir
                + " is missing "@ + missing + ("; "@ + hint),
            PkgErrorView::NotACheckout { crate_dir } => "protocol client crate "@ + crate_dir
                + " is not a checkout (no Cargo.toml); set App::protocol_pkg_dir(...) to a built package"@,
            PkgErrorView::Spawn { crate_dir, source } => "wasm-pack could not be started for "@
                + crate_dir + ": "@ + source,
            PkgErrorView::Build { crate_dir, status, stderr_tail } => "wasm-pack build of "@
                + crate_dir + " failed ("@ + status + ("):\n"@ + stderr_tail),
        }
    }
}

impl ProtocolPkgError {
    /// What the error says.
    pub fn message(&self) -> (message: String)
        ensures
            message@ == self@.text(),
    {
        match self {
            ProtocolPkgError::Missing { dir, missing, hint } => concat5(
                "protocol package ",
                dir,
                " is missing ",
                missing,
                &concat2("; ", hint),
            ),
            ProtocolPkgError::NotACheckout { crate_dir } => concat3(
                "protocol client crate ",
                crate_dir,
                " is not a checkout (no Cargo.toml); set App::protocol_pkg_dir(...) to a built package",
            ),
            ProtocolPkgError::Spawn { crate_dir, source } => concat4(
                "wasm-pack could not be started for ",
                crate_dir,
                ": ",
                source,
            ),
            ProtocolPkgError::Build { crate_dir, status, stderr_tail } => concat5(
                "wasm-pack build of ",
                crate_dir,
                " failed (",
                status,
                &concat2("):\n", stderr_tail),
            ),
        }
    }
}

/// What to do about the package.
#[derive(Debug, PartialEq, Eq)]
pub enum Plan {
    /// Serve the directory as it is.
    Serve { dir: String, stale_warning: bool },
    /// Build the client, then serve the directory.
    Build { crate_dir: String, dir: String },
    /// Refuse to start.
    Refuse(String),
}

/// A plan in contracts.
pub enum PlanView {
    Serve { dir: Seq<char>, stale_warning: bool },
    Build { crate_dir: Seq<char>, dir: Seq<char> },
    Refuse(Seq<char>),
}

impl View for Plan {
    type V = PlanView;

    open spec fn view(&self) -> PlanView {
        match self {
            Plan::Serve { dir, stale_warning } => PlanView::Serve {
                dir: dir@,
                stale_warning: *stale_warning,
            },
            Plan::Build { crate_dir, dir } => PlanView::Build {
                crate_dir: crate_dir@,
                dir: dir@,
            },
            Plan::Refuse(reason) => PlanView::Refuse(reason@),
        }
    }
}

/// What a plan is decided on.
#[derive(Clone, Copy, Debug, PartialEq, Eq, Structural)]
pub struct Facts {
    /// Both files are in the candidate directory.
    pub built: bool,
    /// The package is older than a source of it. Without a package it says
    /// nothing.
    pub stale: bool,
    /// The build tool can be run.
    pub wasm_pack: bool,
    /// There are sources to build from.
    pub checkout: bool,
}

/// How to get a package.
pub open spec fn build_hint(crate_dir: Seq<char>) -> Seq<char> {
    "build it with `wasm-pack build "@ + crate_dir
        + " --release --target web --out-dir pkg` or point App::protocol_pkg_dir(...) at a built package"@
}

/// What to do about the package. One that was named is served or refused, and
/// never built. The default one is served while it is current, and built where
/// it is missing or stale and can be built; a stale one that cannot be is
/// served with a warning.
pub open spec fn planned(
    explicit: Option<Seq<char>>,
    default_dir: Seq<char>,
    crate_dir: Seq<char>,
    facts: Facts,
) -> PlanView {
    match explicit {
        Some(dir) => if facts.built {
            PlanView::Serve { dir, stale_warning: false }
        } else {
            PlanView::Refuse(
                "App::protocol_pkg_dir("@ + dir
                    + ") does not contain ag_ui_wasm_client.js and ag_ui_wasm_client_bg.wasm; "@
                    + build_hint(crate_dir),
            )
        },
        None => if facts.built && !facts.stale {
            PlanView::Serve { dir: default_dir, stale_warning: false }
        } else if facts.wasm_pack && facts.checkout {
            PlanView::Build { crate_dir, dir: default_dir }
        } else if facts.built {
            PlanView::Serve { dir: default_dir, stale_warning: true }
        } else if !facts.wasm_pack {
            PlanView::Refuse(
                "the typed protocol client is not built and wasm-pack is not on PATH (`cargo install wasm-pack`); "@
                    + build_hint(crate_dir),
            )
        } else {
            PlanView::Refuse(
                "the typed protocol client is not built and "@ + crate_dir
                    + " is not a checkout to build it from; "@ + build_hint(crate_dir),
            )
        },
    }
}

/// Decides what to do about the package. `explicit` is the directory that the
/// application named.
pub fn plan(explicit: Option<&str>, default_dir: &str, crate_dir: &str, facts: Facts) -> (plan:
    Plan)
    ensures
        plan@ == planned(opt_str(explicit), default_dir@, crate_dir@, facts),
{
    let hint: String = concat3(
        "build it with `wasm-pack build ",
        crate_dir,
        " --release --target web --out-dir pkg` or point App::protocol_pkg_dir(...) at a built package",
    );
    match explicit {
        Some(dir) => if facts.built {
            Plan::Serve { dir: dir.to_owned(), stale_warning: false }
        } else {
            Plan::Refuse(
                concat4(
                    "App::protocol_pkg_dir(",
                    dir,
                    ") does not contain ag_ui_wasm_client.js and ag_ui_wasm_client_bg.wasm; ",
                    &hint,
                ),
            )
        },
        None => if facts.built && !facts.stale {
            Plan::Serve { dir: default_dir.to_owned(), stale_warning: false }
        } else if facts.wasm_pack && facts.checkout {
            Plan::Build { crate_dir: crate_dir.to_owned(), dir: default_dir.to_owned() }
        } else if facts.built {
            Plan::Serve { dir: default_dir.to_owned(), stale_warning: true }
        } else if !facts.wasm_pack {
            Plan::Refuse(
                concat2(
                    "the typed protocol client is not built and wasm-pack is not on PATH (`cargo install wasm-pack`); ",
                    &hint,
                ),
            )
        } else {
            Plan::Refuse(
                concat4(
                    "the typed protocol client is not built and ",
                    crate_dir,
                    " is not a checkout to build it from; ",
                    &hint,
                ),
            )
        },
    }
}

/// Where the client's sources and the default package are, beside the
/// directory of this package's own manifest.
pub fn default_layout(manifest_dir: &str) -> (layout: (String, String))
    ensures
        layout.0@ == under(manifest_dir@, "../ag-ui-wasm-client"@),
        layout.1@ == under(layout.0@, "pkg"@),
{
    let crate_dir: String = path_under(manifest_dir, "../ag-ui-wasm-client");
    let dir: String = path_under(&crate_dir, "pkg");
    (crate_dir, dir)
}

/// Whether a moment is known and later than another.
pub open spec fn known_later(moment: Option<u128>, other: u128) -> bool {
    moment matches Some(moment) && moment > other
}

/// Whether a package was made before one of its sources, by the moments of
/// both. Without a package there is nothing that is current.
pub fn is_stale(built: Option<u128>, sources: &Vec<Option<u128>>) -> (stale: bool)
    ensures
        stale == (match built {
            None => true,
            Some(built) => exists|i: int|
                0 <= i < sources@.len() && known_later(#[trigger] sources@[i], built),
        }),
{
    match built {
        None => true,
        Some(made) => {
            let mut i: usize = 0;
            while i < sources.len()
                invariant
                    i <= sources@.len(),
                    built == Some(made),
                    forall|k: int| 0 <= k < i ==> !known_later(#[trigger] sources@[k], made),
                decreases sources@.len() - i,
            {
                match sources[i] {
                    Some(source) => {
                        if source > made {
                            proof {
                                assert(known_later(sources@[i as int], made));
                            }
                            return true;
                        }
                    },
                    None => {},
                }
                i += 1;
            }
            false
        },
    }
}

/// The newest of some moments.
pub open spec fn newest_of(moments: Seq<Option<u128>>) -> Option<u128>
    decreases moments.len(),
{
    if moments.len() == 0 {
        None
    } else {
        match (newest_of(moments.drop_last()), moments.last()) {
            (Some(a), Some(b)) => Some(
                if b > a {
                    b
                } else {
                    a
                },
            ),
            (Some(a), None) => Some(a),
            (None, b) => b,
        }
    }
}

/// The newest of some moments.
pub fn newest_mtime(moments: &Vec<Option<u128>>) -> (newest: Option<u128>)
    ensures
        newest == newest_of(moments@),
{
    let mut newest: Option<u128> = None;
    let mut i: usize = 0;
    while i < moments.len()
        invariant
            i <= moments@.len(),
            newest == newest_of(moments@.take(i as int)),
        decreases moments@.len() - i,
    {
        proof {
            assert(moments@.take(i + 1).drop_last() =~= moments@.take(i as int));
        }
        newest = match (newest, moments[i]) {
            (Some(a), Some(b)) => Some(
                if b > a {
                    b
                } else {
                    a
                },
            ),
            (Some(a), None) => Some(a),
            (None, b) => b,
        };
        i += 1;
    }
    proof {
        assert(moments@.take(i as int) =~= moments@);
    }
    newest
}

/// What serving a refused package says.
pub fn refused(candidate: &str, reason: String) -> (error: ProtocolPkgError)
    ensures
        error@ == (PkgErrorView::Missing {
            dir: candidate@,
            missing: "the typed protocol client"@,
            hint: reason@,
        }),
{
    ProtocolPkgError::Missing {
        dir: candidate.to_owned(),
        missing: "the typed protocol client",
        hint: reason,
    }
}

/// The directory to serve after a build that succeeded, if the package is
/// there.
pub fn built_package(dir: String, built: bool) -> (result: Result<String, ProtocolPkgError>)
    ensures
        match result {
            Ok(served) => built && served@ == dir@,
            Err(error) => !built && error@ == (PkgErrorView::Missing {
                dir: dir@,
                missing: "its wasm-pack output after a successful build"@,
                hint: "check the wasm-pack `--out-dir`"@,
            }),
        },
{
    if built {
        Ok(dir)
    } else {
        Err(
            ProtocolPkgError::Missing {
                dir,
                missing: "its wasm-pack output after a successful build",
                hint: "check the wasm-pack `--out-dir`".to_owned(),
            },
        )
    }
}

/// A line without the carriage return at its end.
pub open spec fn line_text(line: Seq<char>) -> Seq<char> {
    if line.len() > 0 && line.last() == '\r' {
        line.drop_last()
    } else {
        line
    }
}

/// The lines of a text. A newline at the very end begins no further line. Where
/// the last line has no newline, a carriage return at its end belongs to it.
pub open spec fn lines_of(text: Seq<char>) -> Seq<Seq<char>> {
    let pieces = split_on(text, '\n');
    let whole = Seq::new((pieces.len() - 1) as nat, |i: int| line_text(pieces[i]));
    if pieces.last().len() == 0 {
        whole
    } else {
        whole.push(pieces.last())
    }
}

fn lines(text: &str) -> (list: Vec<String>)
    ensures
        texts(list@) == lines_of(text@),
{
    let pieces: Vec<String> = split(text, '\n');
    let ghost all = texts(pieces@);
    proof {
        crate::text::lemma_split_nonempty(text@, '\n');
    }
    let last: usize = pieces.len() - 1;
    let mut list: Vec<String> = Vec::new();
    let mut i: usize = 0;
    while i < last
        invariant
            i <= last,
            last == pieces@.len() - 1,
            list@.len() == i,
            forall|k: int| 0 <= k < i ==> (#[trigger] list@[k])@ == line_text(pieces@[k]@),
        decreases last - i,
    {
        let chars: Vec<char> = chars_of(&pieces[i]);
        let len: usize = chars.len();
        if len > 0 && chars[len - 1] == '\r' {
            list.push(string_of(&chars, 0, len - 1));
            proof {
                assert(chars@.subrange(0, len - 1) =~= chars@.drop_last());
            }
        } else {
            list.push(pieces[i].clone());
        }
        i += 1;
    }
    let ghost whole = Seq::new((all.len() - 1) as nat, |i: int| line_text(all[i]));
    proof {
        assert(texts(list@) =~= whole);
        assert(all.last() == pieces@[last as int]@);
    }
    if !pieces[last].as_str().is_empty() {
        list.push(pieces[last].clone());
        proof {
            assert(texts(list@) =~= whole.push(all.last()));
        }
    }
    list
}

/// The last lines of what a build printed.
pub open spec fn tail_of(lines: Seq<Seq<char>>) -> Seq<Seq<char>> {
    if lines.len() > 30 {
        lines.skip(lines.len() - 30)
    } else {
        lines
    }
}

/// The error of a build that failed, with the last thirty lines of what it
/// printed.
pub fn failed_build(crate_dir: &str, status: String, stderr: &str) -> (error: ProtocolPkgError)
    ensures
        error@ == (PkgErrorView::Build {
            crate_dir: crate_dir@,
            status: status@,
            stderr_tail: joined(tail_of(lines_of(stderr@)), "\n"@),
        }),
{
    let all: Vec<String> = lines(stderr);
    let from: usize = if all.len() > 30 {
        all.len() - 30
    } else {
        0
    };
    let mut tail: Vec<String> = Vec::new();
    let mut i: usize = from;
    while i < all.len()
        invariant
            from <= i <= all@.len(),
            tail@.len() == i - from,
            forall|k: int| 0 <= k < i - from ==> (#[trigger] tail@[k])@ == all@[from + k]@,
        decreases all@.len() - i,
    {
        tail.push(all[i].clone());
        i += 1;
    }
    proof {
        assert(texts(tail@) =~= tail_of(texts(all@)));
    }
    ProtocolPkgError::Build {
        crate_dir: crate_dir.to_owned(),
        status,
        stderr_tail: join(&tail, "\n"),
    }
}

/// A package that was named is never built, a current one never is either, and
/// nothing is served that is not there.
pub proof fn law_only_a_package_that_is_there_is_served(
    explicit: Option<Seq<char>>,
    default_dir: Seq<char>,
    crate_dir: Seq<char>,
    facts: Facts,
)
    ensures
        explicit is Some ==> !(planned(explicit, default_dir, crate_dir, facts) is Build),
        facts.built && !facts.stale ==> (planned(
            explicit,
            default_dir,
            crate_dir,
            facts,
        ) matches PlanView::Serve { stale_warning, .. } && !stale_warning),
        planned(explicit, default_dir, crate_dir, facts) is Serve ==> facts.built,
        planned(explicit, default_dir, crate_dir, facts) is Build ==> facts.wasm_pack
            && facts.checkout,
{
}

} // verus!
