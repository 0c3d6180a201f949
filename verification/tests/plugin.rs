use pom_plugin_base::assets::{check_manifest_assets, content_type, ui_asset, ui_manifest, Asset};
use pom_plugin_base::json::Member;
use pom_plugin_base::base64::encode_base64;
use pom_plugin_base::ffi::{
    buffer_from_bytes, ingest_status, input_bytes, query_buffer, validate_config, ByteBuffer,
    ByteSlice, ABI_VERSION, CAPABILITIES,
};
use pom_plugin_base::query::{
    asset_reply_for, classify_operation, query_inner, upstream_reply, Operation, QueryReply,
    Upstream,
};
use pom_plugin_base::workspace::{
    configure_workspace, workspace_snapshot, DirEntry, SnapshotStatus, WorkspaceState,
};

const MANIFEST: &[u8] = br#"{
  "schema": "pom-plugin-ui/v1",
  "plugin_code": "base",
  "assets": ["ui/screens.js", "ui/plugin.css", "i18n/en.json", "i18n/pt-BR.json"]
}"#;

fn asset(name: &str, bytes: &[u8]) -> Asset {
    Asset::embedded(name.to_owned(), bytes.to_vec())
}

fn full_catalog() -> Vec<Asset> {
    vec![
        Asset::embedded("i18n/en.json".to_owned(), b"{}".to_vec()),
        Asset::embedded("i18n/pt-BR.json".to_owned(), b"{}".to_vec()),
        Asset::embedded("ui/plugin.css".to_owned(), b".x{}".to_vec()),
        Asset::embedded("ui/screens.js".to_owned(), b"foo".to_vec()),
    ]
}

fn entry(name: &str, is_dir: bool) -> DirEntry {
    DirEntry {
        name: Some(name.to_owned()),
        is_dir: Some(is_dir),
    }
}

fn query(state: &mut WorkspaceState, request: &str) -> Result<QueryReply, String> {
    let catalog = full_catalog();
    let upstream = Upstream {
        port: 8080,
        token: "secret".to_owned(),
    };
    query_inner(state, Some(&upstream), &catalog, MANIFEST, request.as_bytes())
}

#[test]
fn buffer_encoding_uses_standard_padding() {
    assert_eq!(encode_base64(b"f"), "Zg==");
    assert_eq!(encode_base64(b"fo"), "Zm8=");
    assert_eq!(encode_base64(b"foo"), "Zm9v");
}

#[test]
fn manifest_resolves_all_built_assets() {
    let catalog: Vec<Asset> = Vec::new();
    if ui_asset(&catalog, "ui/screens.js").is_some() {
        assert!(ui_manifest(MANIFEST, &catalog).is_ok());
    } else {
        assert!(ui_manifest(MANIFEST, &catalog).is_err());
    }
    let catalog = full_catalog();
    assert!(ui_asset(&catalog, "ui/screens.js").is_some());
    assert!(ui_manifest(MANIFEST, &catalog).is_ok());
    for name in ["ui/screens.js", "ui/plugin.css", "i18n/en.json", "i18n/pt-BR.json"] {
        assert!(ui_asset(&catalog, name).is_some());
    }
}

#[test]
fn host_configure_reads_and_clears_the_top_level_workspace_root() {
    let root = "/srv/pom/projects".to_owned();
    let mut state = WorkspaceState::default();
    let request = format!(
        r#"{{"operation": "host.configure", "workspace_root": "{}"}}"#,
        root
    );
    assert_eq!(
        configure_workspace(&mut state, request.as_bytes()),
        Ok(QueryReply::Configured)
    );
    assert_eq!(state.root(), Some(root.clone()));

    configure_workspace(&mut state, br#"{"operation": "host.configure"}"#).unwrap();
    assert_eq!(state.root(), None);
}

#[test]
fn host_configure_rejects_a_non_string_workspace_root() {
    let mut state = WorkspaceState::default();
    let error = configure_workspace(
        &mut state,
        br#"{"operation": "host.configure", "workspace_root": 42}"#,
    )
    .unwrap_err();
    assert!(error.contains("workspace_root"));
    assert_eq!(state.root(), None);
}

#[test]
fn workspace_snapshot_lists_visible_directories_only() {
    let listing = vec![
        entry("beta", true),
        entry(".plugin-state", true),
        entry("notes.txt", false),
        entry("alpha", true),
    ];
    let snapshot = workspace_snapshot(Some(listing));
    assert_eq!(snapshot.status, SnapshotStatus::Ready);
    assert_eq!(snapshot.projects, vec!["alpha".to_owned(), "beta".to_owned()]);
}

#[test]
fn workspace_snapshot_reports_empty_and_unavailable_roots() {
    let empty = workspace_snapshot(Some(Vec::new()));
    assert_eq!(empty.status, SnapshotStatus::Empty);
    assert!(empty.projects.is_empty());

    let missing = workspace_snapshot(None);
    assert_eq!(missing.status, SnapshotStatus::Unavailable);
    assert!(missing.projects.is_empty());
}

#[test]
fn snapshot_skips_unreadable_entries_and_sorts_by_code_point() {
    let listing = vec![
        DirEntry {
            name: None,
            is_dir: Some(true),
        },
        DirEntry {
            name: Some("unknown".to_owned()),
            is_dir: None,
        },
        entry("b", true),
        entry("B", true),
        entry("é", true),
        entry("a", true),
        entry(".", true),
        entry("", true),
    ];
    let snapshot = workspace_snapshot(Some(listing));
    assert_eq!(snapshot.status, SnapshotStatus::Ready);
    assert_eq!(
        snapshot.projects,
        vec![
            "".to_owned(),
            "B".to_owned(),
            "a".to_owned(),
            "b".to_owned(),
            "é".to_owned()
        ]
    );
}

#[test]
fn snapshot_of_only_hidden_or_files_is_empty() {
    let snapshot = workspace_snapshot(Some(vec![entry(".git", true), entry("readme", false)]));
    assert_eq!(snapshot.status, SnapshotStatus::Empty);
    assert!(snapshot.projects.is_empty());
}

#[test]
fn configure_treats_null_and_blank_roots_as_cleared() {
    let mut state = WorkspaceState::from_root("/a".to_owned());
    configure_workspace(&mut state, br#"{"workspace_root": null}"#).unwrap();
    assert_eq!(state.root(), None);

    let mut state = WorkspaceState::from_root("/a".to_owned());
    configure_workspace(&mut state, br#"{"workspace_root": " \t "}"#).unwrap();
    assert_eq!(state.root(), None);

    let mut state = WorkspaceState::default();
    configure_workspace(&mut state, br#"{"workspace_root": " /b "}"#).unwrap();
    assert_eq!(state.root(), Some(" /b ".to_owned()));
}

#[test]
fn configure_rejection_keeps_the_previous_root() {
    let mut state = WorkspaceState::from_root("/kept".to_owned());
    let error = configure_workspace(&mut state, br#"{"workspace_root": ["/x"]}"#).unwrap_err();
    assert_eq!(error, "workspace_root must be a string or null");
    assert_eq!(state.root(), Some("/kept".to_owned()));

    let error = configure_workspace(&mut state, b"{not json").unwrap_err();
    assert!(!error.is_empty());
    assert_eq!(state.root(), Some("/kept".to_owned()));
}

#[test]
fn set_root_replaces_the_root() {
    let mut state = WorkspaceState::default();
    state.set_root(Some("/one".to_owned()));
    assert_eq!(state.root(), Some("/one".to_owned()));
    state.set_root(None);
    assert_eq!(state.root(), None);
}

#[test]
fn query_dispatches_every_operation() {
    let mut state = WorkspaceState::default();
    assert!(matches!(
        query(&mut state, r#"{"operation":"host.configure","workspace_root":"/w"}"#),
        Ok(QueryReply::Configured)
    ));
    assert_eq!(state.root(), Some("/w".to_owned()));
    assert!(matches!(
        query(&mut state, r#"{"operation":"workspace.projects"}"#),
        Ok(QueryReply::WorkspaceProjects)
    ));
    match query(&mut state, r#"{"operation":"ui.upstream"}"#) {
        Ok(QueryReply::Upstream { port, token }) => {
            assert_eq!(port, 8080);
            assert_eq!(token, "secret");
        }
        other => panic!("unexpected reply {other:?}"),
    }
    assert!(matches!(
        query(&mut state, r#"{"operation":"ui.manifest"}"#),
        Ok(QueryReply::Manifest)
    ));
    match query(&mut state, r#"{"operation":"ui.asset","path":"ui/screens.js"}"#) {
        Ok(QueryReply::Asset {
            content_type,
            base64,
        }) => {
            assert_eq!(content_type, "text/javascript");
            assert_eq!(base64, "Zm9v");
        }
        other => panic!("unexpected reply {other:?}"),
    }
    assert_eq!(state.root(), Some("/w".to_owned()));
}

#[test]
fn query_reports_each_error() {
    let mut state = WorkspaceState::from_root("/w".to_owned());
    let unknown = query(&mut state, r#"{"operation":"something.else"}"#).unwrap_err();
    assert_eq!(unknown, "unknown operation");
    let not_object = query(&mut state, "[1, 2]").unwrap_err();
    assert_eq!(not_object, "unknown operation");
    let missing = query(&mut state, r#"{"operation":"ui.asset"}"#).unwrap_err();
    assert_eq!(missing, "asset path is missing");
    let unknown_asset =
        query(&mut state, r#"{"operation":"ui.asset","path":"ui/none.js"}"#).unwrap_err();
    assert_eq!(unknown_asset, "unknown asset");
    let parse = query(&mut state, "{").unwrap_err();
    assert!(parse.contains("EOF"));
    let mut fresh = WorkspaceState::default();
    let upstream = query_inner(
        &mut fresh,
        None,
        &[],
        MANIFEST,
        br#"{"operation":"ui.upstream"}"#,
    )
    .unwrap_err();
    assert_eq!(upstream, "workspace upstream is unavailable");
    let manifest =
        query_inner(&mut fresh, None, &[], MANIFEST, br#"{"operation":"ui.manifest"}"#)
            .unwrap_err();
    assert_eq!(manifest, "asset is not embedded: ui/screens.js");
    assert_eq!(state.root(), Some("/w".to_owned()));
}

#[test]
fn manifest_errors_name_their_cause() {
    let catalog = full_catalog();
    assert_eq!(
        ui_manifest(br#"{"schema":"x"}"#, &catalog),
        Err("manifest has no assets".to_owned())
    );
    assert_eq!(
        ui_manifest(br#"{"assets":"ui/screens.js"}"#, &catalog),
        Err("manifest has no assets".to_owned())
    );
    assert_eq!(
        ui_manifest(br#"{"assets":[1, "ui/screens.js", "ui/missing.js", "x"]}"#, &catalog),
        Err("asset is not embedded: ui/missing.js".to_owned())
    );
    assert!(ui_manifest(b"", &catalog).is_err());
}

#[test]
fn ui_asset_finds_the_first_entry_of_a_name() {
    let catalog = vec![
        asset("a.css", b"1"),
        asset("b.css", b"2"),
        asset("a.css", b"3"),
    ];
    let found = ui_asset(&catalog, "a.css").unwrap();
    assert_eq!(found.bytes(), b"1");
    assert_eq!(found.content_type(), "text/css");
    assert!(ui_asset(&catalog, "c").is_none());
}

#[test]
fn base64_handles_longer_inputs() {
    assert_eq!(encode_base64(b""), "");
    assert_eq!(encode_base64(b"foob"), "Zm9vYg==");
    assert_eq!(encode_base64(b"fooba"), "Zm9vYmE=");
    assert_eq!(encode_base64(b"foobar"), "Zm9vYmFy");
    assert_eq!(encode_base64(&[0xfb, 0xff, 0xbf]), "+/+/");
    assert_eq!(encode_base64(&[0, 0, 0]), "AAAA");
}

#[test]
fn base64_encodes_group_by_group() {
    let a = b"abcdef";
    let b = b"xy";
    let mut joined = a.to_vec();
    joined.extend_from_slice(b);
    assert_eq!(
        encode_base64(&joined),
        format!("{}{}", encode_base64(a), encode_base64(b))
    );
    for n in 0..10usize {
        let bytes = vec![7u8; n];
        assert_eq!(encode_base64(&bytes).len(), 4 * ((n + 2) / 3));
    }
}

#[test]
fn input_slices_follow_the_abi() {
    assert_eq!(input_bytes(ByteSlice { address: 0, len: 0 }), Ok(0));
    assert_eq!(input_bytes(ByteSlice { address: 64, len: 0 }), Ok(0));
    assert_eq!(
        input_bytes(ByteSlice { address: 0, len: 3 }),
        Err("null byte slice".to_owned())
    );
    assert_eq!(input_bytes(ByteSlice { address: 64, len: 3 }), Ok(3));
}

#[test]
fn ingest_accepts_readable_events_only() {
    assert_eq!(ingest_status(false, ByteSlice { address: 64, len: 3 }), 0);
    assert_eq!(ingest_status(false, ByteSlice { address: 0, len: 0 }), 0);
    assert_eq!(ingest_status(false, ByteSlice { address: 0, len: 3 }), -1);
    assert_eq!(ingest_status(true, ByteSlice { address: 64, len: 3 }), -1);
}

#[test]
fn create_accepts_empty_or_json_configuration() {
    assert_eq!(validate_config(b""), Ok(()));
    assert_eq!(validate_config(b"{\"a\": 1}"), Ok(()));
    assert_eq!(validate_config(b" 42 "), Ok(()));
    assert!(validate_config(b"{").is_err());
}

#[test]
fn buffers_carry_replies_and_failures() {
    let buffer = buffer_from_bytes(b"ok".to_vec());
    assert_eq!(buffer.len(), 2);
    assert_eq!(buffer.contents, Some(b"ok".to_vec()));
    assert_eq!(ByteBuffer::null().len(), 0);
    assert!(query_buffer(Err("x".to_owned())).contents.is_none());
    assert_eq!(query_buffer(Ok(vec![1, 2])).contents, Some(vec![1, 2]));
}

#[test]
fn abi_constants_are_version_one_without_capabilities() {
    assert_eq!(ABI_VERSION, 1);
    assert_eq!(CAPABILITIES, 0);
}

#[test]
fn snapshot_statuses_have_their_labels() {
    assert_eq!(SnapshotStatus::Ready.label(), "ready");
    assert_eq!(SnapshotStatus::Empty.label(), "empty");
    assert_eq!(SnapshotStatus::Unavailable.label(), "unavailable");
}

#[test]
fn content_types_follow_extensions() {
    assert_eq!(content_type("ui/screens.js"), "text/javascript");
    assert_eq!(content_type("ui/plugin.css"), "text/css");
    assert_eq!(content_type("i18n/pt-BR.json"), "application/json");
    assert_eq!(content_type("ui/logo.png"), "application/octet-stream");
    assert_eq!(content_type("ui/.css"), "application/octet-stream");
    assert_eq!(content_type("ui/archive"), "application/octet-stream");
    assert_eq!(content_type("ui.js/readme"), "application/octet-stream");
    assert_eq!(content_type("ui/a.js/"), "text/javascript");
    assert_eq!(content_type("ui/a.css/."), "text/css");
    assert_eq!(content_type("ui/a.json//./"), "application/json");
    assert_eq!(content_type("./"), "application/octet-stream");
    assert_eq!(content_type("a.js/.."), "application/octet-stream");
    assert_eq!(content_type(".js"), "application/octet-stream");
    assert_eq!(content_type("ui/a.b.json"), "application/json");
    assert_eq!(content_type("ui/x.JS"), "application/octet-stream");
    let embedded = Asset::embedded("ui/plugin.css".to_owned(), vec![1, 2]);
    assert_eq!(embedded.content_type(), "text/css");
    assert_eq!(embedded.name(), "ui/plugin.css");
    assert_eq!(embedded.bytes(), &[1, 2]);
}

#[test]
fn manifest_assets_member_is_checked_directly() {
    let catalog = full_catalog();
    let listed = Member::List(vec![Some("ui/screens.js".to_owned()), None]);
    assert_eq!(check_manifest_assets(listed, &catalog), Ok(()));
    let missing = Member::List(vec![Some("ui/gone.js".to_owned())]);
    assert_eq!(
        check_manifest_assets(missing, &catalog),
        Err("asset is not embedded: ui/gone.js".to_owned())
    );
    assert_eq!(
        check_manifest_assets(Member::Absent, &catalog),
        Err("manifest has no assets".to_owned())
    );
}

#[test]
fn operations_are_classified_and_answered() {
    assert_eq!(classify_operation("host.configure"), Operation::Configure);
    assert_eq!(classify_operation("workspace.projects"), Operation::Projects);
    assert_eq!(classify_operation("ui.upstream"), Operation::Upstream);
    assert_eq!(classify_operation("ui.manifest"), Operation::Manifest);
    assert_eq!(classify_operation("ui.asset"), Operation::Asset);
    assert_eq!(classify_operation("UI.ASSET"), Operation::Unknown);
    assert_eq!(classify_operation(""), Operation::Unknown);
    let up = Upstream {
        port: 9,
        token: "t".to_owned(),
    };
    assert_eq!(
        upstream_reply(Some(&up)),
        Ok(QueryReply::Upstream {
            port: 9,
            token: "t".to_owned()
        })
    );
    assert_eq!(
        upstream_reply(None),
        Err("workspace upstream is unavailable".to_owned())
    );
    let catalog = full_catalog();
    assert_eq!(
        asset_reply_for(Member::Text("ui/plugin.css".to_owned()), &catalog),
        Ok(QueryReply::Asset {
            content_type: "text/css".to_owned(),
            base64: "Lnh7fQ==".to_owned()
        })
    );
    assert_eq!(
        asset_reply_for(Member::Null, &catalog),
        Err("asset path is missing".to_owned())
    );
    assert_eq!(
        asset_reply_for(Member::Text("nope".to_owned()), &catalog),
        Err("unknown asset".to_owned())
    );
}

fn content_type_by_path(name: &str) -> &'static str {
    match std::path::Path::new(name)
        .extension()
        .and_then(|extension| extension.to_str())
    {
        Some("js") => "text/javascript",
        Some("css") => "text/css",
        Some("json") => "application/json",
        _ => "application/octet-stream",
    }
}

#[test]
fn content_types_agree_with_path_extension() {
    for name in [
        "ui/screens.js", "ui/plugin.css", "i18n/en.json", "ui/a.js/", "ui/a.css/.", "a.json//./",
        "./", ".", "..", "a/..", "a.js/..", ".js", "ui/.css", "x/.hidden.json", "b.", "/", "/.",
        "./a.js", "a/./b.css", "a.b/c", "", "js", "a.JS", "dir.js/.//",
    ] {
        assert_eq!(content_type(name), content_type_by_path(name), "{name}");
    }
}
