//! The host's queries: a JSON object whose top-level `operation` picks what
//! the plugin does.
//!
//! - `host.configure` takes the shared workspace root (`workspace_root`);
//! - `workspace.projects` answers with the workspace snapshot;
//! - `ui.upstream` answers with the port and token of the workspace endpoint;
//! - `ui.manifest` answers with the UI manifest, once every asset it names
//!   is found embedded;
//! - `ui.asset` answers with the content type and the Base64 text of the
//!   embedded asset named by `path`.
//!
//! Anything else is refused with `unknown operation`.
use vstd::prelude::*;
use crate::assets::{content_type_for, has_asset, manifest_check, ui_asset, ui_manifest, Asset};
use crate::base64::{base64, encode_base64};
use crate::json::{json_error, json_member, json_member_of, Member};
use crate::text::{chars_equal, chars_of};
use crate::workspace::{bad_root_message, configure_workspace, configured_root, WorkspaceState};

verus! {

/// The workspace endpoint, where it was started: its port and its token.
#[derive(Debug)]
pub struct Upstream {
    pub port: u16,
    pub token: String,
}

/// What the plugin answers a query with.
#[derive(Debug, PartialEq, Eq)]
pub enum QueryReply {
    /// `{"status":"ok"}`.
    Configured,
    /// The snapshot of the workspace, once its root has been listed.
    WorkspaceProjects,
    /// `{"status":"ready","port":..,"token":..}`.
    Upstream { port: u16, token: String },
    /// The UI manifest.
    Manifest,
    /// `{"content_type":..,"base64":..}`.
    Asset { content_type: String, base64: String },
}

/// The operations that a query can ask for.
#[derive(PartialEq, Eq, Structural, Debug, Clone, Copy)]
pub enum Operation {
    /// `host.configure`.
    Configure,
    /// `workspace.projects`.
    Projects,
    /// `ui.upstream`.
    Upstream,
    /// `ui.manifest`.
    Manifest,
    /// `ui.asset`.
    Asset,
    /// Any other text.
    Unknown,
}

/// The operation that a request's `operation` text names.
pub open spec fn operation_kind(op: Seq<char>) -> Operation {
    if op == "host.configure"@ {
        Operation::Configure
    } else if op == "workspace.projects"@ {
        Operation::Projects
    } else if op == "ui.upstream"@ {
        Operation::Upstream
    } else if op == "ui.manifest"@ {
        Operation::Manifest
    } else if op == "ui.asset"@ {
        Operation::Asset
    } else {
        Operation::Unknown
    }
}

/// The request's `operation`: its string, or the empty text.
pub open spec fn operation(request: Seq<u8>) -> Seq<char> {
    match json_member_of(request, "operation"@) {
        Member::Text(text) => text@,
        _ => seq![],
    }
}

/// Whether `reply` is the asset reply for `path`: content type and Base64
/// text of the first asset of `catalog` with that name.
pub open spec fn asset_reply(reply: QueryReply, catalog: Seq<Asset>, path: Seq<char>) -> bool {
    exists|k: int|
        #![trigger catalog[k]]
        0 <= k < catalog.len() && catalog[k]@.name == path && (forall|m: int|
            0 <= m < k ==> (#[trigger] catalog[m])@.name != path) && (reply matches QueryReply::Asset {
            content_type,
            base64: text,
        } && content_type@ == catalog[k]@.content_type && text@ == base64(catalog[k]@.bytes))
}

/// What `ui.upstream` answers.
pub open spec fn upstream_answers(upstream: Option<&Upstream>, res: Result<QueryReply, String>) -> bool {
    match upstream {
        Some(up) => res matches Ok(QueryReply::Upstream { port, token }) && port == up.port
            && token@ == up.token@,
        None => res matches Err(e) && e@ == "workspace upstream is unavailable"@,
    }
}

/// What `ui.asset` answers for the request's `path` member.
pub open spec fn asset_answers(path: Member, catalog: Seq<Asset>, res: Result<QueryReply, String>) -> bool {
    match path {
        Member::Text(path) => if has_asset(catalog, path@) {
            res matches Ok(reply) && asset_reply(reply, catalog, path@)
        } else {
            res matches Err(e) && e@ == "unknown asset"@
        },
        _ => res matches Err(e) && e@ == "asset path is missing"@,
    }
}

/// What `ui.manifest` answers for the manifest text.
pub open spec fn manifest_answers(manifest: Seq<u8>, catalog: Seq<Asset>, res: Result<QueryReply, String>) -> bool {
    match json_error(manifest) {
        Some(message) => res matches Err(e) && e@ == message,
        None => match manifest_check(json_member_of(manifest, "assets"@), catalog) {
            Ok(()) => res matches Ok(QueryReply::Manifest),
            Err(message) => res matches Err(e) && e@ == message,
        },
    }
}

/// What a query other than `host.configure` gives, where the request parses.
pub open spec fn answers(
    op: Seq<char>,
    request: Seq<u8>,
    upstream: Option<&Upstream>,
    catalog: Seq<Asset>,
    manifest: Seq<u8>,
    res: Result<QueryReply, String>,
) -> bool {
    match operation_kind(op) {
        Operation::Projects => res matches Ok(QueryReply::WorkspaceProjects),
        Operation::Upstream => upstream_answers(upstream, res),
        Operation::Manifest => manifest_answers(manifest, catalog, res),
        Operation::Asset => asset_answers(json_member_of(request, "path"@), catalog, res),
        _ => res matches Err(e) && e@ == "unknown operation"@,
    }
}

/// The operation that `op` names.
pub fn classify_operation(op: &str) -> (res: Operation)
    ensures
        res == operation_kind(op@),
{
    let op = chars_of(op);
    if chars_equal(&op, &chars_of("host.configure")) {
        Operation::Configure
    } else if chars_equal(&op, &chars_of("workspace.projects")) {
        Operation::Projects
    } else if chars_equal(&op, &chars_of("ui.upstream")) {
        Operation::Upstream
    } else if chars_equal(&op, &chars_of("ui.manifest")) {
        Operation::Manifest
    } else if chars_equal(&op, &chars_of("ui.asset")) {
        Operation::Asset
    } else {
        Operation::Unknown
    }
}

/// `ui.upstream`: the endpoint's port and token, where it runs.
pub fn upstream_reply(upstream: Option<&Upstream>) -> (res: Result<QueryReply, String>)
    ensures
        upstream_answers(upstream, res),
{
    match upstream {
        Some(up) => Ok(QueryReply::Upstream { port: up.port, token: up.token.clone() }),
        None => Err(String::from_str("workspace upstream is unavailable")),
    }
}

/// `ui.asset` for the request's `path` member: the content type and Base64
/// text of the embedded asset of that name.
pub fn asset_reply_for(path: Member, catalog: &[Asset]) -> (res: Result<QueryReply, String>)
    ensures
        asset_answers(path, catalog@, res),
        path matches Member::Text(p) ==> (res matches Ok(QueryReply::Asset { content_type, base64: _ })
            ==> content_type@ == content_type_for(p@)),
{
    let path = match path {
        Member::Text(text) => text,
        _ => return Err(String::from_str("asset path is missing")),
    };
    match ui_asset(catalog, path.as_str()) {
        Some(asset) => Ok(
            QueryReply::Asset {
                content_type: asset.content_type().clone(),
                base64: encode_base64(asset.bytes()),
            },
        ),
        None => Err(String::from_str("unknown asset")),
    }
}

/// Answers one query. `workspace` is the held root, `upstream` the endpoint
/// where it runs, `catalog` the embedded assets and `manifest` the text of
/// the UI manifest. A request that does not parse is refused with
/// serde_json's message.
pub fn query_inner(
    workspace: &mut WorkspaceState,
    upstream: Option<&Upstream>,
    catalog: &[Asset],
    manifest: &[u8],
    request: &[u8],
) -> (res: Result<QueryReply, String>)
    ensures
        match json_error(request@) {
            Some(message) => res matches Err(e) && e@ == message && final(workspace)@ == old(
                workspace,
            )@,
            None => if operation_kind(operation(request@)) == Operation::Configure {
                match configured_root(json_member_of(request@, "workspace_root"@)) {
                    Ok(root) => res matches Ok(QueryReply::Configured) && final(workspace)@
                        == root,
                    Err(_) => res matches Err(e) && e@ == bad_root_message() && final(workspace)@
                        == old(workspace)@,
                }
            } else {
                &&& final(workspace)@ == old(workspace)@
                &&& answers(operation(request@), request@, upstream, catalog@, manifest@, res)
            },
        },
{
    let op = match json_member(request, "operation")? {
        Member::Text(text) => text,
        _ => String::new(),
    };
    assert(op@ == operation(request@));
    match classify_operation(op.as_str()) {
        Operation::Configure => configure_workspace(workspace, request),
        Operation::Projects => Ok(QueryReply::WorkspaceProjects),
        Operation::Upstream => upstream_reply(upstream),
        Operation::Manifest => {
            ui_manifest(manifest, catalog)?;
            Ok(QueryReply::Manifest)
        },
        Operation::Asset => asset_reply_for(json_member(request, "path")?, catalog),
        Operation::Unknown => Err(String::from_str("unknown operation")),
    }
}

} // verus!
