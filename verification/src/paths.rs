//! Where the shell finds and keeps its files.

use vstd::prelude::*;

verus! {

/// The parts of a path below some directory.
pub type Parts = Seq<Seq<char>>;

/// What the parts of a path hold.
pub open spec fn parts_of(v: Seq<String>) -> Parts {
    v.map_values(|s: String| s@)
}

/// The shell's own directory, below that of all applications' data.
pub open spec fn data_parts() -> Parts {
    seq!["dsh-desktop-shell-tauri"@]
}

/// A path below the shell's own directory.
pub open spec fn in_data(rest: Parts) -> Parts {
    data_parts() + rest
}

fn one(a: &str) -> (r: Vec<String>)
    ensures
        parts_of(r@) == in_data(seq![a@]),
{
    let mut v: Vec<String> = data_dir();
    let ghost before = parts_of(v@);
    v.push(a.to_owned());
    assert(parts_of(v@) == before.push(a@));
    assert(before.push(a@) == before + seq![a@]);
    v
}

/// The shell's own directory.
pub fn data_dir() -> (r: Vec<String>)
    ensures
        parts_of(r@) == data_parts(),
{
    let mut v: Vec<String> = Vec::new();
    v.push("dsh-desktop-shell-tauri".to_owned());
    assert(parts_of(v@) == data_parts());
    v
}

/// The background picture.
pub fn bg_image_path() -> (r: Vec<String>)
    ensures
        parts_of(r@) == in_data(seq!["background.img"@]),
{
    one("background.img")
}

/// The background's opacity.
pub fn bg_opacity_path() -> (r: Vec<String>)
    ensures
        parts_of(r@) == in_data(seq!["background.opacity"@]),
{
    one("background.opacity")
}

/// The directory of installers that were downloaded.
pub fn update_dir() -> (r: Vec<String>)
    ensures
        parts_of(r@) == in_data(seq!["updates"@]),
{
    one("updates")
}

/// The home of `dsh`.
pub fn dsh_home() -> (r: Vec<String>)
    ensures
        parts_of(r@) == in_data(seq!["dsh-home"@]),
{
    one("dsh-home")
}

/// The directory of logs.
pub fn log_dir() -> (r: Vec<String>)
    ensures
        parts_of(r@) == in_data(seq!["logs"@]),
{
    one("logs")
}

/// The manifest of the page's profile, below the home of `dsh`.
pub fn profile_manifest() -> (r: Vec<String>)
    ensures
        parts_of(r@) == seq!["profiles"@, "web"@, "package.json"@],
{
    let mut v: Vec<String> = Vec::new();
    v.push("profiles".to_owned());
    v.push("web".to_owned());
    v.push("package.json".to_owned());
    assert(parts_of(v@) == seq!["profiles"@, "web"@, "package.json"@]);
    v
}

// ---------------------------------------------------------------- the server's files

/// Where a path begins.
#[derive(Debug, Clone, Copy, PartialEq, Eq, Structural)]
pub enum Base {
    /// Among the programs that the system finds by name.
    Programs,
    /// The workspace that the shell was built in.
    Workspace,
    /// The directory of the shell's executable.
    Executable,
    /// The directory of all applications' data.
    AppData,
}

/// A path.
#[derive(Debug)]
pub struct Place {
    pub base: Base,
    pub parts: Vec<String>,
}

/// What a path holds.
#[verifier::ext_equal]
pub struct PlaceView {
    pub base: Base,
    pub parts: Parts,
}

impl View for Place {
    type V = PlaceView;

    open spec fn view(&self) -> PlaceView {
        PlaceView { base: self.base, parts: parts_of(self.parts@) }
    }
}

/// Where the parts of the server are, and what it is given.
#[derive(Debug)]
pub struct ServerSpec {
    /// The Node runtime.
    pub node: Place,
    /// The entry point of the `dsh` CLI.
    pub bin: Place,
    /// The home of `dsh`.
    pub dsh_home: Place,
    /// The file that takes what the server prints; without one it goes to the console.
    pub log_file: Option<Place>,
}

/// What a server is made of.
#[verifier::ext_equal]
pub struct ServerView {
    pub node: PlaceView,
    pub bin: PlaceView,
    pub dsh_home: PlaceView,
    pub log_file: Option<PlaceView>,
}

impl View for ServerSpec {
    type V = ServerView;

    open spec fn view(&self) -> ServerView {
        ServerView {
            node: self.node@,
            bin: self.bin@,
            dsh_home: self.dsh_home@,
            log_file: match self.log_file {
                Some(p) => Some(p@),
                None => None,
            },
        }
    }
}

/// The CLI's entry point below the directory that it is installed in.
pub open spec fn cli_parts() -> Parts {
    seq!["node_modules"@, "@deepseek-ai"@, "dsh"@, "lib"@, "bin.js"@]
}

/// The server of a packaged shell, which brings its own runtime and keeps a log, or of one that is
/// being developed.
pub open spec fn server_of(packaged: bool) -> ServerView {
    let home = PlaceView { base: Base::AppData, parts: in_data(seq!["dsh-home"@]) };
    if packaged {
        ServerView {
            node: PlaceView {
                base: Base::Executable,
                parts: seq!["resources"@, "node"@, "dsh-node.exe"@],
            },
            bin: PlaceView {
                base: Base::Executable,
                parts: seq!["resources"@, "dsh-runtime"@] + cli_parts(),
            },
            dsh_home: home,
            log_file: Some(
                PlaceView { base: Base::AppData, parts: in_data(seq!["logs"@, "dsh.log"@]) },
            ),
        }
    } else {
        ServerView {
            node: PlaceView { base: Base::Programs, parts: seq!["node"@] },
            bin: PlaceView { base: Base::Workspace, parts: cli_parts() },
            dsh_home: home,
            log_file: None,
        }
    }
}

fn push_cli(v: &mut Vec<String>)
    ensures
        parts_of(final(v)@) == parts_of(old(v)@) + cli_parts(),
{
    let ghost before = parts_of(v@);
    v.push("node_modules".to_owned());
    v.push("@deepseek-ai".to_owned());
    v.push("dsh".to_owned());
    v.push("lib".to_owned());
    v.push("bin.js".to_owned());
    assert(parts_of(v@) == before + cli_parts());
}

impl ServerSpec {
    /// Where the parts of the server are.
    pub fn resolve(packaged: bool) -> (r: Self)
        ensures
            r@ == server_of(packaged),
    {
        let home: Place = Place { base: Base::AppData, parts: dsh_home() };
        if packaged {
            let mut node: Vec<String> = Vec::new();
            node.push("resources".to_owned());
            node.push("node".to_owned());
            node.push("dsh-node.exe".to_owned());
            assert(parts_of(node@) == seq!["resources"@, "node"@, "dsh-node.exe"@]);
            let mut bin: Vec<String> = Vec::new();
            bin.push("resources".to_owned());
            bin.push("dsh-runtime".to_owned());
            assert(parts_of(bin@) == seq!["resources"@, "dsh-runtime"@]);
            push_cli(&mut bin);
            let mut log: Vec<String> = log_dir();
            let ghost dir = parts_of(log@);
            log.push("dsh.log".to_owned());
            assert(parts_of(log@) == dir.push("dsh.log"@));
            assert(dir.push("dsh.log"@) == in_data(seq!["logs"@, "dsh.log"@]));
            ServerSpec {
                node: Place { base: Base::Executable, parts: node },
                bin: Place { base: Base::Executable, parts: bin },
                dsh_home: home,
                log_file: Some(Place { base: Base::AppData, parts: log }),
            }
        } else {
            let mut node: Vec<String> = Vec::new();
            node.push("node".to_owned());
            assert(parts_of(node@) == seq!["node"@]);
            let mut bin: Vec<String> = Vec::new();
            assert(parts_of(bin@) == Seq::<Seq<char>>::empty());
            push_cli(&mut bin);
            assert(Seq::<Seq<char>>::empty() + cli_parts() == cli_parts());
            ServerSpec {
                node: Place { base: Base::Programs, parts: node },
                bin: Place { base: Base::Workspace, parts: bin },
                dsh_home: home,
                log_file: None,
            }
        }
    }
}

/// A packaged shell and one that is being developed share the home of `dsh`, and with it its
/// credentials and sessions.
pub proof fn law_the_home_is_shared()
    ensures
        server_of(true).dsh_home == server_of(false).dsh_home,
{
}

/// Whatever the shell keeps is kept below its own directory.
pub proof fn law_everything_is_kept_in_one_place(packaged: bool)
    ensures
        ({
            let s = server_of(packaged);
            &&& s.dsh_home.base is AppData && data_parts().is_prefix_of(s.dsh_home.parts)
            &&& s.log_file matches Some(p) ==> p.base is AppData && data_parts().is_prefix_of(p.parts)
        }),
{
    let s = server_of(packaged);
    assert(data_parts().is_prefix_of(s.dsh_home.parts));
    if packaged {
        assert(data_parts().is_prefix_of(s.log_file->0.parts));
    }
}

} // verus!
