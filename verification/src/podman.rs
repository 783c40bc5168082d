//! The platforms and their container images, and the podman argvs and
//! listings built from them.
use vstd::prelude::*;
use crate::num::{dec, push_dec};
use crate::order::chars_equal;
use crate::text::{append_chars, append_str, chars_of, cviews, join, join_chars, string_from, string_of, views};

verus! {

/// A platform: its name, its container image, and the working directory
/// inside the container.
#[derive(Debug, Clone, Copy)]
pub struct PlatformInfo {
    pub name: &'static str,
    pub image: &'static str,
    pub workdir: &'static str,
}

/// The platforms, in listing order: (name, image, workdir).
pub open spec fn platform_table() -> Seq<(Seq<char>, Seq<char>, Seq<char>)> {
    seq![
        ("nes"@, "neshax"@, "/neshax"@),
        ("snes"@, "sneshax"@, "/sneshax"@),
        ("gbc"@, "gbchax"@, "/gbchax"@),
        ("gba"@, "gbahax"@, "/gbahax"@),
        ("gen"@, "genhax"@, "/genhax"@),
        ("ds"@, "dshax"@, "/dshax"@),
        ("n64"@, "n64hax"@, "/n64hax"@),
        ("ps1"@, "ps1hax"@, "/ps1hax"@),
    ]
}

/// The value of a platform entry.
pub open spec fn info_view(p: PlatformInfo) -> (Seq<char>, Seq<char>, Seq<char>) {
    (p.name@, p.image@, p.workdir@)
}

/// All platforms, in listing order.
pub fn platforms() -> (r: Vec<PlatformInfo>)
    ensures
        r@.map_values(|p: PlatformInfo| info_view(p)) == platform_table(),
{
    let v = vec![
        PlatformInfo { name: "nes", image: "neshax", workdir: "/neshax" },
        PlatformInfo { name: "snes", image: "sneshax", workdir: "/sneshax" },
        PlatformInfo { name: "gbc", image: "gbchax", workdir: "/gbchax" },
        PlatformInfo { name: "gba", image: "gbahax", workdir: "/gbahax" },
        PlatformInfo { name: "gen", image: "genhax", workdir: "/genhax" },
        PlatformInfo { name: "ds", image: "dshax", workdir: "/dshax" },
        PlatformInfo { name: "n64", image: "n64hax", workdir: "/n64hax" },
        PlatformInfo { name: "ps1", image: "ps1hax", workdir: "/ps1hax" },
    ];
    assert(v@.map_values(|p: PlatformInfo| info_view(p)) =~= platform_table());
    v
}

/// Whether two strings hold the same characters.
pub fn str_eq(a: &str, b: &str) -> (r: bool)
    ensures
        r == (a@ == b@),
{
    let x = chars_of(a);
    let y = chars_of(b);
    chars_equal(&x, &y)
}

/// The platform named exactly `name` (names are case-sensitive).
pub fn get_platform(name: &str) -> (r: Option<PlatformInfo>)
    ensures
        match r {
            Some(p) => exists|i: int|
                0 <= i < platform_table().len() && platform_table()[i] == info_view(p)
                    && #[trigger] platform_table()[i].0 == name@,
            None => forall|i: int| 0 <= i < platform_table().len() ==> #[trigger] platform_table()[i].0 != name@,
        },
{
    let all = platforms();
    let ghost t = platform_table();
    let mut i: usize = 0;
    while i < all.len()
        invariant
            i <= all.len(),
            all@.map_values(|p: PlatformInfo| info_view(p)) == t,
            t == platform_table(),
            forall|j: int| 0 <= j < i ==> #[trigger] t[j].0 != name@,
        decreases all.len() - i,
    {
        let p = all[i];
        assert(t[i as int] == info_view(p));
        if str_eq(p.name, name) {
            assert(platform_table()[i as int].0 == name@);
            return Some(p);
        }
        i += 1;
    }
    None
}

/// The bind mount of a platform's vendor directory: host
/// `<root>/platforms/<platform>/vendor` at `<workdir>/vendor`.
pub open spec fn vendor_mount_spec(root: Seq<char>, platform: Seq<char>, workdir: Seq<char>) -> Seq<char> {
    root + "/platforms/"@ + platform + "/vendor:"@ + workdir + "/vendor"@
}

pub fn vendor_mount(root: &str, platform: &str, workdir: &str) -> (r: String)
    ensures
        r@ == vendor_mount_spec(root@, platform@, workdir@),
{
    let mut v: Vec<char> = Vec::new();
    append_str(&mut v, root);
    append_str(&mut v, "/platforms/");
    append_str(&mut v, platform);
    append_str(&mut v, "/vendor:");
    append_str(&mut v, workdir);
    append_str(&mut v, "/vendor");
    string_of(&v)
}

/// `n` spaces.
pub open spec fn spaces(n: int) -> Seq<char> {
    Seq::new(if n > 0 { n as nat } else { 0 }, |i: int| ' ')
}

/// One line of the platform listing: a check mark when the image is built
/// (a cross otherwise), the name left-aligned in six columns, and the image.
pub open spec fn platform_line(name: Seq<char>, image: Seq<char>, built: bool) -> Seq<char> {
    (if built {
        "✓"@
    } else {
        "✗"@
    }) + seq![' '] + name + spaces(6 - name.len()) + "  ("@ + image + ")"@
}

/// The lines of the listing, given which images are built.
pub open spec fn platform_lines(built: Seq<bool>) -> Seq<Seq<char>> {
    Seq::new(
        platform_table().len(),
        |i: int| platform_line(platform_table()[i].0, platform_table()[i].1, built[i]),
    )
}

/// The platform listing, one line per platform, given for each platform
/// (in listing order) whether its image is built.
pub fn list_platforms(built: &Vec<bool>) -> (r: String)
    requires
        built.len() == platform_table().len(),
    ensures
        r@ == join(platform_lines(built@), "\n"@),
{
    let all = platforms();
    let mut lines: Vec<Vec<char>> = Vec::new();
    let mut i: usize = 0;
    while i < all.len()
        invariant
            i <= all.len(),
            built.len() == all.len(),
            all@.map_values(|p: PlatformInfo| info_view(p)) == platform_table(),
            cviews(lines@) == platform_lines(built@).take(i as int),
        decreases all.len() - i,
    {
        let p = all[i];
        assert(platform_table()[i as int] == info_view(p));
        let mut line: Vec<char> = Vec::new();
        let ghost mark = if built@[i as int] { "✓"@ } else { "✗"@ };
        if built[i] {
            append_str(&mut line, "✓");
        } else {
            append_str(&mut line, "✗");
        }
        line.push(' ');
        let name = chars_of(p.name);
        append_chars(&mut line, &name);
        let mut k: usize = name.len();
        let ghost before_pad = line@;
        while k < 6
            invariant
                name.len() <= k <= 6 || (k == name.len() && k >= 6),
                line@ == before_pad + spaces(k - name.len()),
            decreases 6 - k,
        {
            line.push(' ');
            k += 1;
            assert(line@ =~= before_pad + spaces(k - name.len()));
        }
        assert(spaces(k - name.len()) =~= spaces(6 - name.len()));
        append_str(&mut line, "  (");
        append_str(&mut line, p.image);
        append_str(&mut line, ")");
        let ghost before = cviews(lines@);
        let ghost lv = line@;
        assert(before_pad =~= mark + seq![' '] + p.name@);
        assert(lv =~= platform_line(p.name@, p.image@, built@[i as int]));
        assert(platform_lines(built@)[i as int] == lv);
        lines.push(line);
        i += 1;
        assert(cviews(lines@) =~= before.push(lv));
        assert(cviews(lines@) =~= platform_lines(built@).take(i as int));
    }
    assert(platform_lines(built@).take(all.len() as int) =~= platform_lines(built@));
    let joined = join_chars(&lines, "\n");
    string_of(&joined)
}

/// argv that starts a detached container of a platform running
/// `sleep infinity`, with the vendor directory mounted; `port`, when given,
/// is published on the host as the same port.
pub open spec fn start_container_argv(root: Seq<char>, p: (Seq<char>, Seq<char>, Seq<char>), port: Option<u16>) -> Seq<Seq<char>> {
    seq![
        "run"@,
        "-d"@,
        "--rm"@,
        "--userns=keep-id:uid=1001,gid=1001"@,
        "-v"@,
        vendor_mount_spec(root, p.0, p.2),
    ] + match port {
        Some(n) => seq!["-p"@, dec(n as nat) + ":"@ + dec(n as nat)],
        None => seq![],
    } + seq![p.1, "sleep"@, "infinity"@]
}

/// The podman arguments that start a session (or, with a port, a debug)
/// container for a platform.
pub fn start_container_args(root: &str, platform: &PlatformInfo, port: Option<u16>) -> (r: Vec<String>)
    ensures
        views(r@) == start_container_argv(root@, info_view(*platform), port),
{
    let mut args = vec![
        string_from("run"),
        string_from("-d"),
        string_from("--rm"),
        string_from("--userns=keep-id:uid=1001,gid=1001"),
        string_from("-v"),
        vendor_mount(root, platform.name, platform.workdir),
    ];
    if let Some(n) = port {
        args.push(string_from("-p"));
        let mut v: Vec<char> = Vec::new();
        push_dec(&mut v, n as u32);
        v.push(':');
        push_dec(&mut v, n as u32);
        proof {
            reveal_strlit(":");
        }
        assert(v@ =~= dec(n as nat) + ":"@ + dec(n as nat));
        args.push(string_of(&v));
    }
    args.push(string_from(platform.image));
    args.push(string_from("sleep"));
    args.push(string_from("infinity"));
    assert(views(args@) =~= start_container_argv(root@, info_view(*platform), port));
    args
}

/// argv (after `podman`) that builds the shared base image.
pub open spec fn base_build_argv(root: Seq<char>) -> Seq<Seq<char>> {
    seq!["build"@, "-f"@, root + "/shared/Dockerfile.base"@, "-t"@, "romhack-base"@, root]
}

/// argv (after `podman`) that builds a platform's image from its directory.
pub open spec fn image_build_argv(root: Seq<char>, p: (Seq<char>, Seq<char>, Seq<char>)) -> Seq<Seq<char>> {
    seq!["build"@, "-t"@, p.1, root + "/platforms/"@ + p.0]
}

/// The podman arguments that build the shared base image.
pub fn build_base_args(root: &str) -> (r: Vec<String>)
    ensures
        views(r@) == base_build_argv(root@),
{
    let mut f: Vec<char> = Vec::new();
    append_str(&mut f, root);
    append_str(&mut f, "/shared/Dockerfile.base");
    let args = vec![
        string_from("build"),
        string_from("-f"),
        string_of(&f),
        string_from("-t"),
        string_from("romhack-base"),
        string_from(root),
    ];
    assert(views(args@) =~= seq!["build"@, "-f"@, root@ + "/shared/Dockerfile.base"@, "-t"@, "romhack-base"@, root@]);
    args
}

/// The podman arguments that build a platform's image from its directory.
pub fn build_image_args(root: &str, platform: &PlatformInfo) -> (r: Vec<String>)
    ensures
        views(r@) == image_build_argv(root@, info_view(*platform)),
{
    let mut d: Vec<char> = Vec::new();
    append_str(&mut d, root);
    append_str(&mut d, "/platforms/");
    append_str(&mut d, platform.name);
    let args = vec![string_from("build"), string_from("-t"), string_from(platform.image), string_of(&d)];
    assert(views(args@) =~= seq!["build"@, "-t"@, platform.image@, root@ + "/platforms/"@ + platform.name@]);
    args
}

/// How far building a platform has got.
pub enum BuildStage {
    /// Asking whether the base image exists.
    CheckBase,
    /// Building the base image.
    BuildBase,
    /// Building the platform's image.
    BuildImage,
    Done,
}

/// What came of the last action of a build.
pub enum BuildEvent {
    /// Whether the base image exists.
    BaseExists(bool),
    /// A `podman build` ran: whether it succeeded, and its (lossily
    /// decoded) stderr.
    Ran { success: bool, stderr: String },
    /// A `podman build` could not be run.
    SpawnFailed(String),
}

/// What a build asks its runner to do next.
pub enum BuildAction {
    /// Find out whether the `romhack-base` image exists.
    CheckBaseImage,
    /// Run `podman` with these arguments and report how it went.
    Run(Vec<String>),
    /// The build is over, with this answer.
    Finish(Result<String, String>),
}

/// The event answers the action of the stage.
pub open spec fn build_event_fits(stage: BuildStage, event: BuildEvent) -> bool {
    match stage {
        BuildStage::CheckBase => event is BaseExists,
        BuildStage::BuildBase | BuildStage::BuildImage => event is Ran || event is SpawnFailed,
        BuildStage::Done => false,
    }
}

/// `a` runs podman with exactly `argv`.
pub open spec fn build_runs(a: BuildAction, argv: Seq<Seq<char>>) -> bool {
    a matches BuildAction::Run(args) && views(args@) == argv
}

/// `a` ends the build with the error `msg`.
pub open spec fn build_fails(a: BuildAction, msg: Seq<char>) -> bool {
    a matches BuildAction::Finish(Err(e)) && e@ == msg
}

/// The step a build of `p` under `root` takes from `stage` on `event`: the
/// base image is built first when it is missing, a failed base build stops
/// the build, and the platform's image is built last.
pub open spec fn build_step_spec(
    root: Seq<char>,
    p: (Seq<char>, Seq<char>, Seq<char>),
    stage: BuildStage,
    event: BuildEvent,
    next: BuildStage,
    a: BuildAction,
) -> bool {
    match (stage, event) {
        (BuildStage::CheckBase, BuildEvent::BaseExists(exists)) => if exists {
            next is BuildImage && build_runs(a, image_build_argv(root, p))
        } else {
            next is BuildBase && build_runs(a, base_build_argv(root))
        },
        (BuildStage::BuildBase, BuildEvent::Ran { success, stderr }) => if success {
            next is BuildImage && build_runs(a, image_build_argv(root, p))
        } else {
            next is Done && build_fails(a, "Failed to build romhack-base:\n"@ + stderr@)
        },
        (BuildStage::BuildBase, BuildEvent::SpawnFailed(e)) => next is Done && build_fails(
            a,
            "podman build base failed: "@ + e@,
        ),
        (BuildStage::BuildImage, BuildEvent::Ran { success, stderr }) => if success {
            next is Done && (a matches BuildAction::Finish(Ok(m)) && m@ == "Built "@ + p.1
                + " successfully."@)
        } else {
            next is Done && build_fails(a, "Build failed:\n"@ + stderr@)
        },
        (BuildStage::BuildImage, BuildEvent::SpawnFailed(e)) => next is Done && build_fails(
            a,
            "podman build failed: "@ + e@,
        ),
        _ => false,
    }
}

/// The first stage and action of a build: ask whether the base image exists.
pub fn build_start() -> (r: (BuildStage, BuildAction))
    ensures
        r.0 is CheckBase,
        r.1 is CheckBaseImage,
{
    (BuildStage::CheckBase, BuildAction::CheckBaseImage)
}

/// `"<a><b><c>"`.
fn concat3(a: &str, b: &str, c: &str) -> (r: String)
    ensures
        r@ == a@ + b@ + c@,
{
    let mut v: Vec<char> = Vec::new();
    append_str(&mut v, a);
    append_str(&mut v, b);
    append_str(&mut v, c);
    string_of(&v)
}

/// The next stage and action of building `platform`, given what came of
/// the last action.
pub fn build_step(root: &str, platform: &PlatformInfo, stage: BuildStage, event: BuildEvent) -> (r: (
    BuildStage,
    BuildAction,
))
    requires
        build_event_fits(stage, event),
    ensures
        build_step_spec(root@, info_view(*platform), stage, event, r.0, r.1),
{
    match (stage, event) {
        (BuildStage::CheckBase, BuildEvent::BaseExists(exists)) => {
            if exists {
                (BuildStage::BuildImage, BuildAction::Run(build_image_args(root, platform)))
            } else {
                (BuildStage::BuildBase, BuildAction::Run(build_base_args(root)))
            }
        },
        (BuildStage::BuildBase, BuildEvent::Ran { success, stderr }) => {
            if success {
                (BuildStage::BuildImage, BuildAction::Run(build_image_args(root, platform)))
            } else {
                let m = concat3("Failed to build romhack-base:\n", stderr.as_str(), "");
                proof {
                    reveal_strlit("");
                }
                (BuildStage::Done, BuildAction::Finish(Err(m)))
            }
        },
        (BuildStage::BuildBase, BuildEvent::SpawnFailed(e)) => {
            let m = concat3("podman build base failed: ", e.as_str(), "");
            proof {
                reveal_strlit("");
            }
            (BuildStage::Done, BuildAction::Finish(Err(m)))
        },
        (BuildStage::BuildImage, BuildEvent::Ran { success, stderr }) => {
            if success {
                let m = concat3("Built ", platform.image, " successfully.");
                (BuildStage::Done, BuildAction::Finish(Ok(m)))
            } else {
                let m = concat3("Build failed:\n", stderr.as_str(), "");
                proof {
                    reveal_strlit("");
                }
                (BuildStage::Done, BuildAction::Finish(Err(m)))
            }
        },
        (BuildStage::BuildImage, BuildEvent::SpawnFailed(e)) => {
            let m = concat3("podman build failed: ", e.as_str(), "");
            proof {
                reveal_strlit("");
            }
            (BuildStage::Done, BuildAction::Finish(Err(m)))
        },
        _ => {
            assert(false);
            (BuildStage::Done, BuildAction::CheckBaseImage)
        },
    }
}

} // verus!
