use romhack::podman::{
    build_start, build_step, BuildAction, BuildEvent, BuildStage,
    build_base_args, build_image_args, get_platform, start_container_args,
    vendor_mount,
};

/// No image is built where these tests run.
fn list_platforms() -> String {
    romhack::podman::list_platforms(&vec![false; 8])
}

#[test]
fn all_eight_platforms_resolve() {
    let cases = [
        ("nes", "neshax", "/neshax"),
        ("snes", "sneshax", "/sneshax"),
        ("gbc", "gbchax", "/gbchax"),
        ("gba", "gbahax", "/gbahax"),
        ("gen", "genhax", "/genhax"),
        ("ds", "dshax", "/dshax"),
        ("n64", "n64hax", "/n64hax"),
        ("ps1", "ps1hax", "/ps1hax"),
    ];
    for (name, image, workdir) in &cases {
        let p = get_platform(name).unwrap_or_else(|| panic!("missing platform: {name}"));
        assert_eq!(p.name, *name);
        assert_eq!(p.image, *image);
        assert_eq!(p.workdir, *workdir);
    }
}

#[test]
fn unknown_platform_returns_none() {
    assert!(get_platform("saturn").is_none());
    assert!(get_platform("xbox").is_none());
}

#[test]
fn platform_lookup_is_case_sensitive() {
    assert!(get_platform("NES").is_none());
    assert!(get_platform("DS").is_none());
}

#[test]
fn vendor_mount_format() {
    let mount = vendor_mount("/repos/romhack", "ds", "/dshax");
    assert_eq!(mount, "/repos/romhack/platforms/ds/vendor:/dshax/vendor");
}

#[test]
fn list_platforms_contains_all_eight() {
    let output = list_platforms();
    for name in &["nes", "snes", "gbc", "gba", "gen", "ds", "n64", "ps1"] {
        assert!(output.contains(name), "missing platform in list: {name}");
    }
}

#[test]
fn list_platforms_has_status_indicator() {
    let output = list_platforms();
    for line in output.lines() {
        assert!(
            line.contains('✓') || line.contains('✗'),
            "line missing status indicator: {line}"
        );
    }
}

// ── Further cases ────────────────────────────────────────────────────────────

#[test]
fn platform_list_exact_lines() {
    let built = vec![true, false, false, false, false, true, false, false];
    let out = romhack::podman::list_platforms(&built);
    let lines: Vec<&str> = out.lines().collect();
    assert_eq!(lines.len(), 8);
    assert_eq!(lines[0], "✓ nes     (neshax)");
    assert_eq!(lines[1], "✗ snes    (sneshax)");
    assert_eq!(lines[5], "✓ ds      (dshax)");
    assert!(!out.ends_with('\n'));
}

#[test]
fn start_container_argv() {
    let ds = get_platform("ds").unwrap();
    assert_eq!(
        start_container_args("/r", &ds, None),
        vec![
            "run",
            "-d",
            "--rm",
            "--userns=keep-id:uid=1001,gid=1001",
            "-v",
            "/r/platforms/ds/vendor:/dshax/vendor",
            "dshax",
            "sleep",
            "infinity",
        ]
    );
    let with_port = start_container_args("/r", &ds, Some(2345));
    assert_eq!(with_port[6], "-p");
    assert_eq!(with_port[7], "2345:2345");
    assert_eq!(with_port[8], "dshax");
}

#[test]
fn build_argvs() {
    let gba = get_platform("gba").unwrap();
    assert_eq!(
        build_base_args("/r"),
        vec!["build", "-f", "/r/shared/Dockerfile.base", "-t", "romhack-base", "/r"]
    );
    assert_eq!(build_image_args("/r", &gba), vec!["build", "-t", "gbahax", "/r/platforms/gba"]);
}

fn run_build(base_exists: bool, base_ok: bool, image_ok: bool) -> (Vec<Vec<String>>, Result<String, String>) {
    let gba = get_platform("gba").unwrap();
    let (mut stage, mut action) = build_start();
    let mut ran = Vec::new();
    loop {
        let event = match action {
            BuildAction::Finish(r) => return (ran, r),
            BuildAction::CheckBaseImage => BuildEvent::BaseExists(base_exists),
            BuildAction::Run(args) => {
                let ok = if args.contains(&"romhack-base".to_string()) { base_ok } else { image_ok };
                ran.push(args);
                BuildEvent::Ran { success: ok, stderr: "boom".into() }
            }
        };
        let (s, a) = build_step("/r", &gba, stage, event);
        stage = s;
        action = a;
    }
}

#[test]
fn build_builds_base_first_when_missing() {
    let (ran, r) = run_build(false, true, true);
    assert_eq!(ran, vec![build_base_args("/r"), build_image_args("/r", &get_platform("gba").unwrap())]);
    assert_eq!(r, Ok("Built gbahax successfully.".to_string()));
}

#[test]
fn build_skips_existing_base() {
    let (ran, r) = run_build(true, false, true);
    assert_eq!(ran, vec![vec!["build", "-t", "gbahax", "/r/platforms/gba"]]);
    assert_eq!(r, Ok("Built gbahax successfully.".to_string()));
}

#[test]
fn build_failures() {
    let (ran, r) = run_build(false, false, true);
    assert_eq!(ran.len(), 1);
    assert_eq!(r, Err("Failed to build romhack-base:\nboom".to_string()));
    let (_, r) = run_build(true, true, false);
    assert_eq!(r, Err("Build failed:\nboom".to_string()));
    let gba = get_platform("gba").unwrap();
    let (_, a) = build_step("/r", &gba, BuildStage::BuildBase, BuildEvent::SpawnFailed("no podman".into()));
    assert!(matches!(a, BuildAction::Finish(Err(ref e)) if e == "podman build base failed: no podman"));
    let (_, a) = build_step("/r", &gba, BuildStage::BuildImage, BuildEvent::SpawnFailed("no podman".into()));
    assert!(matches!(a, BuildAction::Finish(Err(ref e)) if e == "podman build failed: no podman"));
}
