//! Syncing workflow statuses with the Hestia service: what is exchanged, where
//! it is sent, and with which credentials. The HTTP client runs in the
//! application.
use crate::auth::session::AuthSession;
use crate::error::{is_sync_error, AppError};
use crate::text::{append_str, chars_of, str_eq_chars, string_of, trim_end_char, trim_end_char_of};
use vstd::prelude::*;

verus! {

/// Where and how to sync.
#[derive(Debug, Clone, Default)]
pub struct SyncConfig {
    pub enabled: bool,
    pub api_base_url: String,
    pub project_id: String,
    pub heron_auth_url: String,
    pub access_token: String,
}

/// A status change waiting to be sent.
#[derive(Debug, Clone)]
pub struct SyncQueueItem {
    pub id: i64,
    pub archive_id: String,
    pub entry_path: String,
    pub status_id: String,
    pub updated_at: String,
}

/// A link between an archive entry and a workflow status on the server.
#[derive(Debug, Clone)]
pub struct RemoteArchiveLink {
    pub entry_path: String,
    pub workflow_status_id: String,
}

/// A workflow status as the server has it.
#[derive(Debug, Clone)]
pub struct RemoteWorkflowStatus {
    pub id: String,
    pub label: String,
}

/// An entry of an archive's manifest.
#[derive(Debug, Clone)]
pub struct ManifestEntryDto {
    pub path: String,
    pub size_bytes: u64,
    pub is_dir: bool,
}

/// A link as it is sent.
#[derive(Debug, Clone)]
pub struct RemoteArchiveLinkPayload {
    pub entry_path: String,
    pub workflow_status_id: String,
}

/// An endpoint of the project: the base URL without trailing `/`, the project
/// path, then `tail`.
pub open spec fn project_url(c: SyncConfig, tail: Seq<char>) -> Seq<char> {
    trim_end_char(c.api_base_url@, '/') + "/api/hehel/projects/"@ + c.project_id@ + tail
}

fn project_url_of(config: &SyncConfig, tail: &Vec<char>) -> (res: String)
    ensures
        res@ == project_url(*config, tail@),
{
    let mut v = trim_end_char_of(&chars_of(config.api_base_url.as_str()), '/');
    append_str(&mut v, "/api/hehel/projects/");
    append_str(&mut v, config.project_id.as_str());
    crate::text::append_chars(&mut v, tail);
    string_of(&v)
}

pub fn workflow_statuses_url(config: &SyncConfig) -> (res: String)
    ensures
        res@ == project_url(*config, "/workflow-statuses"@),
{
    project_url_of(config, &chars_of("/workflow-statuses"))
}

pub fn init_board_url(config: &SyncConfig) -> (res: String)
    ensures
        res@ == project_url(*config, "/archives/init-board"@),
{
    project_url_of(config, &chars_of("/archives/init-board"))
}

pub fn bulk_links_url(config: &SyncConfig) -> (res: String)
    ensures
        res@ == project_url(*config, "/archive-links/bulk"@),
{
    project_url_of(config, &chars_of("/archive-links/bulk"))
}

pub fn sync_archive_url(config: &SyncConfig) -> (res: String)
    ensures
        res@ == project_url(*config, "/archives/sync"@),
{
    project_url_of(config, &chars_of("/archives/sync"))
}

pub fn manifest_url(config: &SyncConfig, archive_id: &str) -> (res: String)
    ensures
        res@ == project_url(*config, "/archives/"@ + archive_id@ + "/manifest"@),
{
    let mut t = chars_of("/archives/");
    append_str(&mut t, archive_id);
    append_str(&mut t, "/manifest");
    project_url_of(config, &t)
}

pub fn links_url(config: &SyncConfig, archive_id: &str) -> (res: String)
    ensures
        res@ == project_url(*config, "/archive-links?archiveId="@ + archive_id@),
{
    let mut t = chars_of("/archive-links?archiveId=");
    append_str(&mut t, archive_id);
    project_url_of(config, &t)
}

/// The text in an `Ok`, if there is one.
pub open spec fn ok_text(res: Result<String, AppError>) -> Option<Seq<char>> {
    match res {
        Ok(t) => Some(t@),
        Err(_) => None,
    }
}

/// The token requests are sent with: the configured one, else the stored
/// session's; an error where there is neither.
pub fn bearer(config: &SyncConfig, session_token: Option<String>) -> (res: Result<String, AppError>)
    ensures
        config.access_token@.len() > 0 ==> ok_text(res) == Some(config.access_token@),
        config.access_token@.len() == 0 ==> match session_token {
            Some(s) => ok_text(res) == Some(s@),
            None => res matches Err(e) && is_sync_error(e, "Не выполнен вход. Войдите через Heron."@),
        },
{
    let a = chars_of(config.access_token.as_str());
    if a.len() > 0 {
        return Ok(config.access_token.clone());
    }
    match session_token {
        Some(t) => Ok(t),
        None => Err(AppError::Sync(String::from_str("Не выполнен вход. Войдите через Heron."))),
    }
}

/// The value of the `Authorization` header for a token.
pub fn auth_header_text(token: &str) -> (res: String)
    ensures
        res@ == "Bearer "@ + token@,
{
    let mut v = chars_of("Bearer ");
    append_str(&mut v, token);
    string_of(&v)
}

/// The configuration with what it leaves empty taken from the stored session:
/// the API URL, the auth URL and the token.
pub fn fill_config_from_session(config: SyncConfig, session: Option<AuthSession>) -> (res: SyncConfig)
    ensures
        res.enabled == config.enabled,
        res.project_id@ == config.project_id@,
        match session {
            None => res.api_base_url@ == config.api_base_url@ && res.heron_auth_url@
                == config.heron_auth_url@ && res.access_token@ == config.access_token@,
            Some(s) => {
                &&& res.api_base_url@ == if config.api_base_url@.len() == 0 {
                    s.hcom_api_url@
                } else {
                    config.api_base_url@
                }
                &&& res.heron_auth_url@ == if config.heron_auth_url@.len() == 0 {
                    s.heron_auth_url@
                } else {
                    config.heron_auth_url@
                }
                &&& res.access_token@ == if config.access_token@.len() == 0 {
                    s.session_token@
                } else {
                    config.access_token@
                }
            },
        },
{
    let mut config = config;
    match session {
        Some(s) => {
            if chars_of(config.api_base_url.as_str()).len() == 0 {
                config.api_base_url = s.hcom_api_url;
            }
            if chars_of(config.heron_auth_url.as_str()).len() == 0 {
                config.heron_auth_url = s.heron_auth_url;
            }
            if chars_of(config.access_token.as_str()).len() == 0 {
                config.access_token = s.session_token;
            }
        },
        None => {},
    }
    config
}


/// Whether syncing is set up: enabled, with an API URL and a project; else
/// the error that asks for it.
pub fn check_sync_ready(config: &SyncConfig) -> (res: Result<(), AppError>)
    ensures
        (config.enabled && config.api_base_url@.len() > 0 && config.project_id@.len() > 0) ==> res is Ok,
        !(config.enabled && config.api_base_url@.len() > 0 && config.project_id@.len() > 0) ==> (res matches Err(e)
            && is_sync_error(e, "Синхронизация не настроена. Войдите и укажите projectId."@)),
{
    if !config.enabled || chars_of(config.api_base_url.as_str()).len() == 0 || chars_of(config.project_id.as_str()).len() == 0 {
        return Err(AppError::Sync(String::from_str("Синхронизация не настроена. Войдите и укажите projectId.")));
    }
    Ok(())
}

/// Whether a project is set for saving to the cloud; else the error that
/// asks for one.
pub fn check_project_set(config: &SyncConfig) -> (res: Result<(), AppError>)
    ensures
        config.project_id@.len() > 0 ==> res is Ok,
        config.project_id@.len() == 0 ==> (res matches Err(e) && is_sync_error(
            e,
            "Укажите projectId в настройках синхронизации"@,
        )),
{
    if chars_of(config.project_id.as_str()).len() == 0 {
        return Err(AppError::Sync(String::from_str("Укажите projectId в настройках синхронизации")));
    }
    Ok(())
}

/// A link as it is sent, viewed: (entry path, remote status id).
pub open spec fn payload_view(p: RemoteArchiveLinkPayload) -> (Seq<char>, Seq<char>) {
    (p.entry_path@, p.workflow_status_id@)
}

/// Links grouped by archive, viewed.
pub type GroupsView = Seq<(Seq<char>, Seq<(Seq<char>, Seq<char>)>)>;

/// The index of the first group of `archive_id` at or after `k`, if there is
/// one.
pub open spec fn group_index_from(g: GroupsView, archive_id: Seq<char>, k: int) -> Option<int>
    decreases g.len() - k,
{
    if k < 0 || k >= g.len() {
        None
    } else if g[k].0 == archive_id {
        Some(k)
    } else {
        group_index_from(g, archive_id, k + 1)
    }
}

/// The index of the group of `archive_id`, if there is one.
pub open spec fn group_index(g: GroupsView, archive_id: Seq<char>) -> Option<int> {
    group_index_from(g, archive_id, 0)
}

/// The groups with one more link for `archive_id`: added to its group, or to
/// a new group at the end.
pub open spec fn add_link(g: GroupsView, archive_id: Seq<char>, link: (Seq<char>, Seq<char>)) -> GroupsView {
    match group_index(g, archive_id) {
        Some(i) => g.update(i, (archive_id, g[i].1.push(link))),
        None => g.push((archive_id, seq![link])),
    }
}

/// The links of the pending changes (archive id, entry path, remote status
/// id), grouped by archive in the order the archives first appear.
pub open spec fn grouped_links(items: Seq<(Seq<char>, Seq<char>, Seq<char>)>) -> GroupsView
    decreases items.len(),
{
    if items.len() == 0 {
        Seq::empty()
    } else {
        add_link(grouped_links(items.drop_last()), items.last().0, (items.last().1, items.last().2))
    }
}

/// The view of grouped links.
pub open spec fn groups_view(g: Seq<(String, Vec<RemoteArchiveLinkPayload>)>) -> GroupsView {
    g.map_values(|x: (String, Vec<RemoteArchiveLinkPayload>)| (x.0@, x.1@.map_values(|p: RemoteArchiveLinkPayload| payload_view(p))))
}

/// The pending changes' links to push, grouped by archive in the order the
/// archives first appear; `remote_ids[i]` is the server's id of the status of
/// `pending[i]`.
pub fn group_links_by_archive(pending: &[SyncQueueItem], remote_ids: &[String]) -> (res: Vec<(String, Vec<RemoteArchiveLinkPayload>)>)
    requires
        pending@.len() == remote_ids@.len(),
    ensures
        groups_view(res@) == grouped_links(
            Seq::new(pending@.len(), |i: int| (pending@[i].archive_id@, pending@[i].entry_path@, remote_ids@[i]@)),
        ),
{
    let ghost items = Seq::new(pending@.len(), |i: int| (pending@[i].archive_id@, pending@[i].entry_path@, remote_ids@[i]@));
    let mut groups: Vec<(String, Vec<RemoteArchiveLinkPayload>)> = Vec::new();
    let mut i: usize = 0;
    while i < pending.len()
        invariant
            i <= pending@.len(),
            pending@.len() == remote_ids@.len(),
            items == Seq::new(pending@.len(), |i: int| (pending@[i].archive_id@, pending@[i].entry_path@, remote_ids@[i]@)),
            groups_view(groups@) == grouped_links(items.take(i as int)),
        decreases pending@.len() - i,
    {
        let item = &pending[i];
        let link = RemoteArchiveLinkPayload {
            entry_path: item.entry_path.clone(),
            workflow_status_id: remote_ids[i].clone(),
        };
        let ghost g0 = groups_view(groups@);
        let ghost lv = payload_view(link);
        assert(items.take(i + 1).drop_last() =~= items.take(i as int));
        assert(items.take(i + 1).last() == items[i as int]);
        let key = chars_of(item.archive_id.as_str());
        let mut j: usize = 0;
        let mut found = false;
        while j < groups.len()
            invariant_except_break
                j <= groups@.len(),
                g0 == groups_view(groups@),
                key@ == item.archive_id@,
                !found,
                group_index(g0, key@) == group_index_from(g0, key@, j as int),
            ensures
                j <= groups@.len(),
                g0 == groups_view(groups@),
                found ==> j < groups@.len() && group_index(g0, key@) == Some(j as int) && g0[j as int].0 == key@,
                !found ==> group_index(g0, key@) is None,
            decreases groups@.len() - j,
        {
            assert(g0[j as int].0 == groups@[j as int].0@);
            if str_eq_chars(groups[j].0.as_str(), &key) {
                found = true;
                break;
            }
            assert(group_index_from(g0, key@, j as int) == group_index_from(g0, key@, j + 1));
            j = j + 1;
        }
        if found {
            let ghost gv = groups@;
            let mut entry = groups.remove(j);
            assert(entry == gv[j as int]);
            let ghost e_old = entry;
            entry.1.push(link);
            let ghost e_new = entry;
            groups.insert(j, entry);
            assert(groups@ =~= gv.update(j as int, e_new));
            assert(e_new.1@.map_values(|p: RemoteArchiveLinkPayload| payload_view(p)) =~= e_old.1@.map_values(
                |p: RemoteArchiveLinkPayload| payload_view(p),
            ).push(lv));
            assert(g0[j as int] == (e_old.0@, e_old.1@.map_values(|p: RemoteArchiveLinkPayload| payload_view(p))));
            assert(groups_view(groups@)[j as int] == (item.archive_id@, g0[j as int].1.push(lv)));
            assert(groups_view(groups@) =~= g0.update(j as int, (item.archive_id@, g0[j as int].1.push(lv))));
        } else {
            let mut links: Vec<RemoteArchiveLinkPayload> = Vec::new();
            links.push(link);
            assert(links@.map_values(|p: RemoteArchiveLinkPayload| payload_view(p)) =~= seq![lv]);
            let id = item.archive_id.clone();
            groups.push((id, links));
            assert(groups_view(groups@)[groups@.len() - 1] == (item.archive_id@, seq![lv]));
            assert(groups_view(groups@) =~= g0.push((item.archive_id@, seq![lv])));
        }
        i = i + 1;
    }
    assert(items.take(pending@.len() as int) =~= items);
    groups
}


/// Whether an HTTP status is a success.
pub open spec fn is_success(status: u16) -> bool {
    200 <= status <= 299
}

/// The sync error with the text `prefix` followed by `tail`.
fn sync_error(prefix: &str, tail: &str) -> (res: AppError)
    ensures
        is_sync_error(res, prefix@ + tail@),
{
    let mut v = chars_of(prefix);
    append_str(&mut v, tail);
    AppError::Sync(string_of(&v))
}

/// What the reply to the status catalog request means: 401 asks to sign in
/// again, another failure names its status line.
pub fn catalog_reply(status: u16, status_line: &str) -> (res: Result<(), AppError>)
    ensures
        status == 401 ==> (res matches Err(e) && is_sync_error(e, "401 — войдите снова"@)),
        status != 401 && !is_success(status) ==> (res matches Err(e) && is_sync_error(
            e,
            "catalog HTTP "@ + status_line@,
        )),
        status != 401 && is_success(status) ==> res is Ok,
{
    if status == 401 {
        return Err(AppError::Sync(String::from_str("401 — войдите снова")));
    }
    if status < 200 || status > 299 {
        return Err(sync_error("catalog HTTP ", status_line));
    }
    Ok(())
}

/// What the reply to a manifest request means: `Ok(false)` where it did not
/// change (304), `Ok(true)` where a new one came, else an error naming the
/// status line.
pub fn manifest_reply(status: u16, status_line: &str) -> (res: Result<bool, AppError>)
    ensures
        status == 304 ==> res == Ok::<bool, AppError>(false),
        status != 304 && is_success(status) ==> res == Ok::<bool, AppError>(true),
        status != 304 && !is_success(status) ==> (res matches Err(e) && is_sync_error(
            e,
            "manifest HTTP "@ + status_line@,
        )),
{
    if status == 304 {
        return Ok(false);
    }
    if status < 200 || status > 299 {
        return Err(sync_error("manifest HTTP ", status_line));
    }
    Ok(true)
}

/// What a reply means where a failure reports the reply's body after
/// `prefix`.
pub fn body_reply(prefix: &str, status: u16, body: &str) -> (res: Result<(), AppError>)
    ensures
        is_success(status) ==> res is Ok,
        !is_success(status) ==> (res matches Err(e) && is_sync_error(e, prefix@ + body@)),
{
    if status < 200 || status > 299 {
        return Err(sync_error(prefix, body));
    }
    Ok(())
}

} // verus!
