use in_toto::crypto::{HashAlgorithm, HashValue};
use in_toto::interchange::Json;
use in_toto::models::{LinkMetadataBuilder, Metablock, MetadataWrapper, VirtualTargetPath};
use rebuilderd::attest::{attestation_request, serialize_link};
use rebuilderd::backend::{path_to_string, verify};
use rebuilderd::rebuild::{
    Action, Backend, Build, Context, Diffoscope, Event, Rebuild, RebuildError,
};
use rebuilderd::report::{ArtifactStatus, QueuedJobArtifact, RebuildArtifactReport};
use std::collections::{BTreeMap, HashMap};

fn context(artifacts: &[&str], input_url: Option<&str>, diffoscope: bool) -> Context {
    Context {
        artifacts: artifacts
            .iter()
            .map(|name| QueuedJobArtifact {
                name: name.to_string(),
                url: format!("https://example.com/{name}.pkg"),
            })
            .collect(),
        input_url: input_url.map(|url| url.to_string()),
        backend: Backend {
            path: "/usr/libexec/rebuilder".to_string(),
        },
        build: Build {
            timeout: None,
            silent: false,
        },
        diffoscope: Diffoscope {
            enabled: diffoscope,
        },
    }
}

/// Runs a rebuild on the results of its actions and returns the actions.
fn run(ctx: &Context, events: Vec<Event>) -> (Vec<Action>, Vec<RebuildArtifactReport>) {
    let mut rebuild = Rebuild::new(ctx).unwrap();
    let mut actions = Vec::new();
    for event in events {
        actions.push(rebuild.action());
        rebuild.advance(event);
    }
    assert_eq!(rebuild.action(), Action::Done);
    (actions, rebuild.into_reports())
}

fn downloaded(name: &str) -> Event {
    Event::Downloaded(name.to_string())
}

fn report(
    name: &str,
    status: ArtifactStatus,
    attestation: Option<&[u8]>,
    diffoscope: Option<&[u8]>,
) -> RebuildArtifactReport {
    RebuildArtifactReport {
        name: name.to_string(),
        diffoscope: diffoscope.map(|b| b.to_vec()),
        attestation: attestation.map(|b| b.to_vec()),
        status,
    }
}

#[test]
fn every_artifact_is_reported_in_order() {
    let ctx = context(&["a", "b", "c", "d"], Some("https://example.com/src"), true);
    let (actions, reports) = run(
        &ctx,
        vec![
            downloaded("a.pkg"),
            downloaded("b.pkg"),
            downloaded("c.pkg"),
            downloaded("d.pkg"),
            downloaded("src"),
            Event::Built,
            Event::Found(false),
            Event::Found(true),
            Event::Compared(true),
            Event::Attested(Some("{}".to_string())),
            Event::Compressed(vec![1, 2]),
            Event::Found(true),
            Event::Compared(false),
            Event::Diffed("\u{e9}".to_string()),
            Event::Compressed(vec![3]),
            Event::Found(true),
            Event::Compared(true),
            Event::Attested(None),
        ],
    );
    let s = |s: &str| s.to_string();
    assert_eq!(
        actions,
        vec![
            Action::DownloadArtifact(s("https://example.com/a.pkg")),
            Action::DownloadArtifact(s("https://example.com/b.pkg")),
            Action::DownloadArtifact(s("https://example.com/c.pkg")),
            Action::DownloadArtifact(s("https://example.com/d.pkg")),
            Action::DownloadInput(s("https://example.com/src")),
            Action::Build(s("src")),
            Action::FindOutput(s("a.pkg")),
            Action::FindOutput(s("b.pkg")),
            Action::Compare(s("b.pkg")),
            Action::Attest(s("b.pkg"), s("src")),
            Action::Compress(b"{}".to_vec()),
            Action::FindOutput(s("c.pkg")),
            Action::Compare(s("c.pkg")),
            Action::Diff(s("c.pkg")),
            Action::Compress(vec![0xc3, 0xa9]),
            Action::FindOutput(s("d.pkg")),
            Action::Compare(s("d.pkg")),
            Action::Attest(s("d.pkg"), s("src")),
        ]
    );
    assert_eq!(
        reports,
        vec![
            report("a", ArtifactStatus::Bad, None, None),
            report("b", ArtifactStatus::Good, Some(&[1, 2]), None),
            report("c", ArtifactStatus::Bad, None, Some(&[3])),
            report("d", ArtifactStatus::Good, None, None),
        ]
    );
}

#[test]
fn first_artifact_is_the_build_input() {
    let ctx = context(&["a", "b"], None, false);
    let (actions, reports) = run(
        &ctx,
        vec![
            downloaded("first"),
            downloaded("second"),
            Event::Built,
            Event::Found(true),
            Event::Compared(false),
            Event::Found(true),
            Event::Compared(true),
            Event::Attested(None),
        ],
    );
    assert_eq!(actions[2], Action::Build("first".to_string()));
    assert_eq!(
        actions[7],
        Action::Attest("second".to_string(), "first".to_string())
    );
    assert_eq!(
        reports,
        vec![
            report("a", ArtifactStatus::Bad, None, None),
            report("b", ArtifactStatus::Good, None, None),
        ]
    );
}

#[test]
fn nothing_to_rebuild() {
    let (actions, reports) = run(
        &context(&[], Some("https://example.com/src"), false),
        vec![downloaded("src"), Event::Built],
    );
    assert_eq!(actions.len(), 2);
    assert_eq!(reports, vec![]);
}

#[test]
fn nothing_to_build_from() {
    assert!(matches!(
        Rebuild::new(&context(&[], None, true)).err(),
        Some(RebuildError::NoBuildInput)
    ));
}

#[test]
fn failures_are_put_into_context() {
    let ctx = context(&["a"], Some("https://example.com/src"), true);
    let mut rebuild = Rebuild::new(&ctx).unwrap();
    assert!(matches!(
        rebuild.failure_context(),
        Some(RebuildError::DownloadArtifact(url)) if url == "https://example.com/a.pkg"
    ));
    rebuild.advance(downloaded("a"));
    assert!(matches!(
        rebuild.failure_context(),
        Some(RebuildError::DownloadInput(url)) if url == "https://example.com/src"
    ));
    rebuild.advance(downloaded("src"));
    assert!(rebuild.failure_context().is_none());
    rebuild.advance(Event::Built);
    rebuild.advance(Event::Found(true));
    assert!(rebuild.failure_context().is_none());
    rebuild.advance(Event::Compared(false));
    assert!(matches!(
        rebuild.failure_context(),
        Some(RebuildError::Diffoscope)
    ));
    rebuild.advance(Event::Diffed("diff".to_string()));
    assert!(rebuild.failure_context().is_none());
}

#[test]
fn backend_is_told_where_to_put_packages() {
    let mut ctx = context(&["a"], None, false);
    let call = verify(&ctx, "/tmp/in/a.rpm", Some("/tmp/out")).unwrap();
    assert_eq!(call.bin, "/usr/libexec/rebuilder");
    assert_eq!(call.args, vec!["/tmp/in/a.rpm"]);
    assert_eq!(call.options.timeout, 3600 * 24);
    assert!(!call.options.kill_at_size_limit);
    assert!(call.options.passthrough);
    assert_eq!(
        call.options.envs,
        vec![("REBUILDERD_OUTDIR".to_string(), "/tmp/out".to_string())]
    );

    ctx.build = Build {
        timeout: Some(60),
        silent: true,
    };
    let call = verify(&ctx, "/tmp/in/a.rpm", Some("/tmp/out")).unwrap();
    assert_eq!(call.options.timeout, 60);
    assert!(!call.options.passthrough);

    assert!(matches!(
        verify(&ctx, "/tmp/in/a.rpm", None),
        Err(RebuildError::InvalidPath)
    ));
}

#[test]
fn paths_have_to_be_valid_unicode() {
    assert_eq!(path_to_string(Some("/tmp")).unwrap(), "/tmp");
    assert!(matches!(
        path_to_string(None),
        Err(RebuildError::InvalidPath)
    ));
}

#[test]
fn attestation_names_the_artifact() {
    let request = attestation_request(
        "a.pkg",
        Some("/tmp/in/src"),
        Some("/tmp/out/a.pkg"),
        "/tmp/in",
        "/tmp/out",
    )
    .unwrap();
    assert_eq!(request.step, "rebuild a.pkg");
    assert_eq!(request.materials, vec!["/tmp/in/src"]);
    assert_eq!(request.products, vec!["/tmp/out/a.pkg"]);
    assert_eq!(request.hash_algorithms, vec!["sha512", "sha256"]);
    assert_eq!(request.strip_prefixes, vec!["/tmp/in/", "/tmp/out/"]);

    assert!(matches!(
        attestation_request("a", None, None, "i", "o"),
        Err(RebuildError::InvalidInputPath)
    ));
    assert!(matches!(
        attestation_request("a", Some("i/s"), None, "i", "o"),
        Err(RebuildError::InvalidOutputPath)
    ));
}

#[test]
fn links_are_written_as_json() {
    let link = LinkMetadataBuilder::new()
        .name("rebuild a.pkg".to_string())
        .unsigned::<Json>()
        .unwrap();
    let json = serialize_link(&link).unwrap();
    assert!(json.starts_with(
        "{\"signatures\":[],\"signed\":{\"_type\":\"link\",\"name\":\"rebuild a.pkg\","
    ));
    assert!(json.ends_with("}}"));
}

#[test]
fn links_with_unknown_hash_algorithms_can_not_be_written() {
    let hashes = HashMap::from([(
        HashAlgorithm::Unknown("md5".to_string()),
        HashValue::new(vec![1]),
    )]);
    let path = VirtualTargetPath::new("a.pkg".to_string()).unwrap();
    let link = LinkMetadataBuilder::new()
        .name("rebuild a.pkg".to_string())
        .materials(BTreeMap::from([(path, hashes)]))
        .build()
        .unwrap();
    let block = Metablock {
        signatures: Vec::new(),
        metadata: MetadataWrapper::Link(link),
    };
    match serialize_link(&block) {
        Err(RebuildError::SerializeAttestation(err)) => {
            assert_eq!(err.to_string(), "key must be a string")
        }
        other => panic!("{other:?}"),
    }
}
