use vstd::prelude::*;
use std::sync::{Arc, Mutex};
use std::time::Instant;
use crate::editor::db::{Article, Status};
use crate::editor::ops::{DeployPreview, SERVE_PORT};
use crate::engine::config::BlogConfig;
use crate::engine::markdown::{byte_prefix, byte_prefix_of, utf8_len, utf8_longer_than};
use crate::text::{
    chars_of, decimal, decimal_of, lines_of, push_all, push_str, same_chars, split_chars, split_on, std_lines, string_of,
    strings_view, trim, trim_ws, vecs_view,
};
use crate::trusted::{elapsed_nanos, instant_now, lock_take, new_mutex};
use crate::vim::Key;

verus! {

/// Action returned from the list view to the dispatcher.
#[derive(Debug, Clone, Copy, PartialEq, Eq, Structural)]
pub enum ListAction {
    Edit(i64),
    New,
    Quit,
}

/// Outside work the list view asks its host to do, in order.
#[derive(Debug, Clone)]
pub enum ListEffect {
    /// Delete the article; on success the host reports it with `after_change`.
    Delete(i64),
    /// Publish the article; on success, `after_change`.
    Publish(i64),
    /// Unpublish the article; on success, `after_change`.
    Unpublish(i64),
    /// Pin the article; on success, `after_change`.
    Pin(i64),
    /// Unpin the article; on success, `after_change`.
    Unpin(i64),
    /// Reload the articles (filtered by `search_filter`) and hand them to
    /// `apply_articles`; `true` keeps the selection where it was.
    Refresh(bool),
    /// Make the theme the blog's theme and report with `after_theme`.
    ApplyTheme(String),
    /// Build the blog in the background into `build_result`.
    SpawnBuild,
    /// Start the local server.
    SpawnServe,
    /// Stop the local server and wait for it.
    StopServe,
    /// Build and stage a deploy in the background into `deploy_result`.
    SpawnDeploy,
    /// Commit and push the deploy directory in the background into `push_result`.
    SpawnPush(String),
    /// Open the local site in a browser.
    OpenBrowser,
}

/// The plain value of an effect.
pub ghost enum ListEffectV {
    Delete(i64),
    Publish(i64),
    Unpublish(i64),
    Pin(i64),
    Unpin(i64),
    Refresh(bool),
    ApplyTheme(Seq<char>),
    SpawnBuild,
    SpawnServe,
    StopServe,
    SpawnDeploy,
    SpawnPush(Seq<char>),
    OpenBrowser,
}

pub open spec fn effect_view(e: ListEffect) -> ListEffectV {
    match e {
        ListEffect::Delete(id) => ListEffectV::Delete(id),
        ListEffect::Publish(id) => ListEffectV::Publish(id),
        ListEffect::Unpublish(id) => ListEffectV::Unpublish(id),
        ListEffect::Pin(id) => ListEffectV::Pin(id),
        ListEffect::Unpin(id) => ListEffectV::Unpin(id),
        ListEffect::Refresh(keep) => ListEffectV::Refresh(keep),
        ListEffect::ApplyTheme(t) => ListEffectV::ApplyTheme(t@),
        ListEffect::SpawnBuild => ListEffectV::SpawnBuild,
        ListEffect::SpawnServe => ListEffectV::SpawnServe,
        ListEffect::StopServe => ListEffectV::StopServe,
        ListEffect::SpawnDeploy => ListEffectV::SpawnDeploy,
        ListEffect::SpawnPush(d) => ListEffectV::SpawnPush(d@),
        ListEffect::OpenBrowser => ListEffectV::OpenBrowser,
    }
}

/// The plain values of a list of effects.
pub open spec fn effects_view(v: Seq<ListEffect>) -> Seq<ListEffectV> {
    v.map_values(|e: ListEffect| effect_view(e))
}

/// What the list view is, without the clock readings it carries.
pub ghost struct ListModel {
    pub articles: Seq<Article>,
    pub selected: Option<usize>,
    pub search_query: Seq<char>,
    pub search_active: bool,
    pub flash: Option<Seq<char>>,
    pub show_help: bool,
    pub confirm_delete: Option<i64>,
    pub building: bool,
    pub built_once: bool,
    pub last_error: Option<Seq<char>>,
    pub show_error: bool,
    pub serving: bool,
    pub serve_after_build: bool,
    pub deploying: bool,
    pub deploy_preview: Option<(Seq<char>, Seq<char>)>,
    pub pushing: bool,
    pub deploy_status: Option<Seq<char>>,
    pub show_theme_picker: bool,
    pub themes: Seq<Seq<char>>,
    pub theme_index: usize,
    pub current_theme: Seq<char>,
}

/// The article list: selection, search, overlays, and the state of the
/// background build, server, deploy and push. Terminal drawing, the
/// database and the threads belong to the host, which performs the
/// `ListEffect`s this state asks for.
pub struct ListState {
    pub articles: Vec<Article>,
    pub selected: Option<usize>,
    pub search_query: String,
    pub search_active: bool,
    pub flash: Option<(String, Instant)>,
    pub show_help: bool,
    pub confirm_delete: Option<i64>,
    pub building: bool,
    pub build_result: Arc<Mutex<Option<Result<String, String>>>>,
    pub last_built: Option<Instant>,
    pub last_error: Option<String>,
    pub show_error: bool,
    pub serving: bool,
    pub serve_after_build: bool,
    pub deploying: bool,
    pub deploy_result: Arc<Mutex<Option<Result<DeployPreview, String>>>>,
    pub deploy_preview: Option<DeployPreview>,
    pub pushing: bool,
    pub push_result: Arc<Mutex<Option<Result<String, String>>>>,
    pub deploy_status: Option<String>,
    pub show_theme_picker: bool,
    pub themes: Vec<String>,
    pub theme_index: usize,
    pub current_theme: String,
}

pub open spec fn opt_text(o: Option<String>) -> Option<Seq<char>> {
    match o {
        Some(s) => Some(s@),
        None => None,
    }
}

pub open spec fn flash_text(o: Option<(String, Instant)>) -> Option<Seq<char>> {
    match o {
        Some((s, _)) => Some(s@),
        None => None,
    }
}

pub open spec fn preview_view(o: Option<DeployPreview>) -> Option<(Seq<char>, Seq<char>)> {
    match o {
        Some(p) => Some((p.diff@, p.deploy_dir@)),
        None => None,
    }
}

impl View for ListState {
    type V = ListModel;

    open spec fn view(&self) -> ListModel {
        ListModel {
            articles: self.articles@,
            selected: self.selected,
            search_query: self.search_query@,
            search_active: self.search_active,
            flash: flash_text(self.flash),
            show_help: self.show_help,
            confirm_delete: self.confirm_delete,
            building: self.building,
            built_once: self.last_built is Some,
            last_error: opt_text(self.last_error),
            show_error: self.show_error,
            serving: self.serving,
            serve_after_build: self.serve_after_build,
            deploying: self.deploying,
            deploy_preview: preview_view(self.deploy_preview),
            pushing: self.pushing,
            deploy_status: opt_text(self.deploy_status),
            show_theme_picker: self.show_theme_picker,
            themes: self.themes@.map_values(|t: String| t@),
            theme_index: self.theme_index,
            current_theme: self.current_theme@,
        }
    }
}

/// Whether two states share their result slots.
pub open spec fn same_slots(a: ListState, b: ListState) -> bool {
    &&& a.build_result == b.build_result
    &&& a.deploy_result == b.deploy_result
    &&& a.push_result == b.push_result
}

/// The first line of a message, as `str::lines` cuts it (the whole message
/// when it has none).
pub open spec fn first_line(s: Seq<char>) -> Seq<char> {
    if std_lines(s).len() > 0 {
        std_lines(s)[0]
    } else {
        s
    }
}

/// The flash shown once the server runs.
pub open spec fn serving_msg() -> Seq<char> {
    "Serving at http://localhost:"@ + decimal(SERVE_PORT as nat)
}

/// Stop the server if it runs.
pub open spec fn stop_serve_m(m: ListModel) -> (ListModel, Seq<ListEffectV>) {
    if !m.serving {
        (m, seq![])
    } else {
        (ListModel { serving: false, flash: Some("Server stopped"@), ..m }, seq![ListEffectV::StopServe])
    }
}

/// Start a build unless one runs.
pub open spec fn start_build_m(m: ListModel) -> (ListModel, Seq<ListEffectV>) {
    if m.building {
        (m, seq![])
    } else {
        (ListModel { building: true, ..m }, seq![ListEffectV::SpawnBuild])
    }
}

/// Serve after a fresh build, unless the server runs.
pub open spec fn start_serve_m(m: ListModel) -> (ListModel, Seq<ListEffectV>) {
    if m.serving {
        (m, seq![])
    } else {
        start_build_m(ListModel { serve_after_build: true, ..m })
    }
}

/// Start the server now.
pub open spec fn spawn_serve_m(m: ListModel) -> (ListModel, Seq<ListEffectV>) {
    (ListModel { serving: true, flash: Some(serving_msg()), ..m }, seq![ListEffectV::SpawnServe])
}

/// Start a deploy unless a deploy or a build runs.
pub open spec fn start_deploy_m(m: ListModel) -> (ListModel, Seq<ListEffectV>) {
    if m.deploying || m.building {
        (m, seq![])
    } else {
        (ListModel { deploying: true, flash: Some("Deploying..."@), ..m }, seq![ListEffectV::SpawnDeploy])
    }
}

/// Push the previewed deploy unless a push runs.
pub open spec fn start_push_m(m: ListModel) -> (ListModel, Seq<ListEffectV>) {
    if m.pushing {
        (m, seq![])
    } else {
        match m.deploy_preview {
            None => (m, seq![]),
            Some((_, dir)) => (
                ListModel { deploy_preview: None, pushing: true, flash: Some("Pushing..."@), ..m },
                seq![ListEffectV::SpawnPush(dir)],
            ),
        }
    }
}

/// `x` held between `lo` and `hi`.
pub open spec fn clamp(x: int, lo: int, hi: int) -> int {
    if x < lo {
        lo
    } else if x > hi {
        hi
    } else {
        x
    }
}

/// Move the selection by `delta` rows, held inside the list.
pub open spec fn move_m(m: ListModel, delta: int) -> ListModel {
    if m.articles.len() == 0 {
        m
    } else {
        let cur: int = match m.selected {
            Some(i) => i as int,
            None => 0,
        };
        ListModel { selected: Some(clamp(cur + delta, 0, m.articles.len() - 1) as usize), ..m }
    }
}

/// The selected article, when the selection points into the list.
pub open spec fn selected_article(m: ListModel) -> Option<Article> {
    match m.selected {
        Some(i) => if i < m.articles.len() {
            Some(m.articles[i as int])
        } else {
            None
        },
        None => None,
    }
}

/// Where the current theme stands among the themes (the first place), or 0.
pub open spec fn theme_slot(themes: Seq<Seq<char>>, cur: Seq<char>) -> usize {
    if exists|i: int| 0 <= i < themes.len() && themes[i] == cur {
        (choose|i: int|
            0 <= i < themes.len() && themes[i] == cur && forall|j: int| 0 <= j < i ==> themes[j] != cur) as usize
    } else {
        0
    }
}

/// Whether a key moves the selection.
pub open spec fn is_selection_key(key: Key) -> bool {
    key == Key::Char('j') || key == Key::Down || key == Key::Char('k') || key == Key::Up || key
        == Key::Char('G') || key == Key::Char('g')
}

/// Whether a key acts on the selected article or asks for a new one.
pub open spec fn is_article_key(key: Key) -> bool {
    key == Key::Enter || key == Key::Char('n') || key == Key::Char('p') || key == Key::Char('i')
        || key == Key::Char('d')
}

/// Whether a key opens an overlay or the search line.
pub open spec fn is_overlay_key(key: Key) -> bool {
    key == Key::Char('t') || key == Key::Char('e') || key == Key::Char('/') || key == Key::Char('?')
}

/// `j`/Down and `k`/Up move by one row, `G` goes to the last row, `g` to the first.
pub open spec fn selection_key_m(m: ListModel, key: Key) -> ListModel {
    if key == Key::Char('j') || key == Key::Down {
        move_m(m, 1)
    } else if key == Key::Char('k') || key == Key::Up {
        move_m(m, -1)
    } else if key == Key::Char('G') {
        if m.articles.len() > 0 {
            ListModel { selected: Some((m.articles.len() - 1) as usize), ..m }
        } else {
            m
        }
    } else {
        ListModel { selected: Some(0), ..m }
    }
}

/// Enter edits the selected article, `n` asks for a new one, `p` toggles
/// its publication, `i` its pin, and `d` asks to confirm its deletion.
pub open spec fn article_key_m(m: ListModel, key: Key) -> (ListModel, Option<ListAction>, Seq<ListEffectV>) {
    let none = Seq::<ListEffectV>::empty();
    if key == Key::Char('n') {
        (m, Some(ListAction::New), none)
    } else {
        match selected_article(m) {
            None => (m, None, none),
            Some(a) => if key == Key::Enter {
                (m, Some(ListAction::Edit(a.id)), none)
            } else if key == Key::Char('p') {
                (m, None, seq![
                    if a.status == Status::Draft {
                        ListEffectV::Publish(a.id)
                    } else {
                        ListEffectV::Unpublish(a.id)
                    },
                ])
            } else if key == Key::Char('i') {
                (m, None, seq![
                    if a.pinned {
                        ListEffectV::Unpin(a.id)
                    } else {
                        ListEffectV::Pin(a.id)
                    },
                ])
            } else {
                (ListModel { confirm_delete: Some(a.id), ..m }, None, none)
            },
        }
    }
}

/// `t` opens the theme picker on the current theme, `e` the last error,
/// `/` an empty search line, `?` the help.
pub open spec fn overlay_key_m(m: ListModel, key: Key) -> ListModel {
    if key == Key::Char('t') {
        if m.themes.len() > 0 {
            ListModel { theme_index: theme_slot(m.themes, m.current_theme), show_theme_picker: true, ..m }
        } else {
            m
        }
    } else if key == Key::Char('e') {
        if m.last_error is Some {
            ListModel { show_error: true, ..m }
        } else {
            m
        }
    } else if key == Key::Char('/') {
        ListModel { search_active: true, search_query: Seq::empty(), ..m }
    } else {
        ListModel { show_help: true, ..m }
    }
}

/// `q` and Ctrl+C stop the server and quit, `b` builds, `s` toggles the
/// server, `o` serves and opens the browser, `D` deploys; other keys do
/// nothing.
pub open spec fn server_key_m(m: ListModel, key: Key, control: bool) -> (ListModel, Option<ListAction>, Seq<ListEffectV>) {
    let none = Seq::<ListEffectV>::empty();
    if key == Key::Char('q') || (key == Key::Char('c') && control) {
        (stop_serve_m(m).0, Some(ListAction::Quit), stop_serve_m(m).1)
    } else if key == Key::Char('b') {
        (start_build_m(m).0, None, start_build_m(m).1)
    } else if key == Key::Char('s') {
        if m.serving {
            (stop_serve_m(m).0, None, stop_serve_m(m).1)
        } else {
            (start_serve_m(m).0, None, start_serve_m(m).1)
        }
    } else if key == Key::Char('o') {
        if m.serving {
            (m, None, seq![ListEffectV::OpenBrowser])
        } else {
            (start_serve_m(m).0, None, start_serve_m(m).1.push(ListEffectV::OpenBrowser))
        }
    } else if key == Key::Char('D') {
        if m.deploying {
            (m, None, none)
        } else {
            (start_deploy_m(m).0, None, start_deploy_m(m).1)
        }
    } else {
        (m, None, none)
    }
}

/// A key in the normal mode of the list.
pub open spec fn normal_key_m(m: ListModel, key: Key, control: bool) -> (
    ListModel,
    Option<ListAction>,
    Seq<ListEffectV>,
) {
    if is_selection_key(key) {
        (selection_key_m(m, key), None, Seq::empty())
    } else if is_article_key(key) {
        article_key_m(m, key)
    } else if is_overlay_key(key) {
        (overlay_key_m(m, key), None, Seq::empty())
    } else {
        server_key_m(m, key, control)
    }
}

/// A key while the theme picker is open.
pub open spec fn theme_key_m(m: ListModel, key: Key) -> (ListModel, Seq<ListEffectV>) {
    if key == Key::Char('j') || key == Key::Down {
        if m.theme_index + 1 < m.themes.len() {
            (ListModel { theme_index: (m.theme_index + 1) as usize, ..m }, seq![])
        } else {
            (m, seq![])
        }
    } else if key == Key::Char('k') || key == Key::Up {
        if m.theme_index > 0 {
            (ListModel { theme_index: (m.theme_index - 1) as usize, ..m }, seq![])
        } else {
            (m, seq![])
        }
    } else if key == Key::Enter {
        let closed = ListModel { show_theme_picker: false, ..m };
        if m.theme_index < m.themes.len() && m.themes[m.theme_index as int] != m.current_theme {
            (closed, seq![ListEffectV::ApplyTheme(m.themes[m.theme_index as int])])
        } else {
            (closed, seq![])
        }
    } else if key == Key::Esc {
        (ListModel { show_theme_picker: false, ..m }, seq![])
    } else {
        (m, seq![])
    }
}

/// A key while the search line is open.
pub open spec fn search_key_m(m: ListModel, key: Key) -> (ListModel, Seq<ListEffectV>) {
    match key {
        Key::Esc => (
            ListModel { search_active: false, search_query: Seq::empty(), ..m },
            seq![ListEffectV::Refresh(true)],
        ),
        Key::Enter => (ListModel { search_active: false, ..m }, seq![]),
        Key::Backspace => (
            ListModel {
                search_query: if m.search_query.len() > 0 {
                    m.search_query.drop_last()
                } else {
                    m.search_query
                },
                ..m
            },
            seq![ListEffectV::Refresh(false)],
        ),
        Key::Char(c) => (
            ListModel { search_query: m.search_query.push(c), ..m },
            seq![ListEffectV::Refresh(false)],
        ),
        _ => (m, seq![]),
    }
}

/// One key: the overlays take it first (deploy status, error, delete
/// confirmation, deploy preview, theme picker, help, search), in that
/// order; otherwise the normal mode does.
pub open spec fn key_m(m: ListModel, key: Key, control: bool) -> (
    ListModel,
    Option<ListAction>,
    Seq<ListEffectV>,
) {
    let none = Seq::<ListEffectV>::empty();
    if m.deploy_status is Some {
        (ListModel { deploy_status: None, ..m }, None, none)
    } else if m.show_error {
        if key == Key::Esc {
            (ListModel { show_error: false, ..m }, None, none)
        } else {
            (m, None, none)
        }
    } else if m.confirm_delete is Some {
        let closed = ListModel { confirm_delete: None, ..m };
        if key == Key::Char('y') && selected_article(m) is Some {
            (closed, None, seq![ListEffectV::Delete(m.confirm_delete.unwrap())])
        } else {
            (closed, None, none)
        }
    } else if m.deploy_preview is Some {
        if key == Key::Char('y') {
            (start_push_m(m).0, None, start_push_m(m).1)
        } else if key == Key::Esc {
            (ListModel { deploy_preview: None, ..m }, None, none)
        } else {
            (m, None, none)
        }
    } else if m.show_theme_picker {
        (theme_key_m(m, key).0, None, theme_key_m(m, key).1)
    } else if m.show_help {
        (ListModel { show_help: false, ..m }, None, none)
    } else if m.search_active {
        (search_key_m(m, key).0, None, search_key_m(m, key).1)
    } else {
        normal_key_m(m, key, control)
    }
}

/// `p` toggles the publication of the selected article: with no overlay or
/// prompt open, it asks to publish a draft and to unpublish a published
/// article, and nothing else; the list itself is unchanged.
pub proof fn law_p_toggles_publication(m: ListModel, control: bool)
    requires
        m.deploy_status is None,
        !m.show_error,
        m.confirm_delete is None,
        m.deploy_preview is None,
        !m.show_theme_picker,
        !m.show_help,
        !m.search_active,
        selected_article(m) is Some,
    ensures
        ({
            let a = selected_article(m).unwrap();
            let (m2, action, effects) = key_m(m, Key::Char('p'), control);
            &&& a.status == Status::Draft ==> effects == seq![ListEffectV::Publish(a.id)]
            &&& a.status == Status::Published ==> effects == seq![ListEffectV::Unpublish(a.id)]
            &&& m2 == m
            &&& action is None
        }),
{
}

/// A finished build: clear the flag; on success flash the message and
/// start the server when one was asked for; on failure flash the first
/// line and keep the whole error.
pub open spec fn build_done_m(m: ListModel, r: Result<Seq<char>, Seq<char>>) -> (ListModel, Seq<ListEffectV>) {
    let m1 = ListModel { building: false, ..m };
    match r {
        Ok(msg) => {
            let m2 = ListModel { flash: Some(msg), built_once: true, ..m1 };
            if m.serve_after_build {
                spawn_serve_m(ListModel { serve_after_build: false, ..m2 })
            } else {
                (m2, seq![])
            }
        },
        Err(err) => (
            ListModel {
                serve_after_build: false,
                flash: Some("Build failed: "@ + first_line(err)),
                last_error: Some(err),
                ..m1
            },
            seq![],
        ),
    }
}

/// A finished deploy: an empty diff has nothing to push; otherwise the
/// preview waits for confirmation.
pub open spec fn deploy_done_m(m: ListModel, r: Result<(Seq<char>, Seq<char>), Seq<char>>) -> ListModel {
    let m1 = ListModel { deploying: false, built_once: true, ..m };
    match r {
        Ok((diff, dir)) => if diff.len() == 0 {
            ListModel { flash: Some("Nothing to deploy"@), ..m1 }
        } else {
            ListModel { deploy_preview: Some((diff, dir)), flash: None, ..m1 }
        },
        Err(err) => ListModel {
            flash: Some("Deploy failed: "@ + first_line(err)),
            last_error: Some(err),
            ..m1
        },
    }
}

/// A finished push: its report is shown, or its first error line.
pub open spec fn push_done_m(m: ListModel, r: Result<Seq<char>, Seq<char>>) -> ListModel {
    let m1 = ListModel { pushing: false, ..m };
    match r {
        Ok(msg) => ListModel { deploy_status: Some(msg), ..m1 },
        Err(err) => ListModel {
            flash: Some("Push failed: "@ + first_line(err)),
            last_error: Some(err),
            ..m1
        },
    }
}

/// Whether an effect is a change to an article.
pub open spec fn is_change(e: ListEffectV) -> bool {
    ||| e is Delete
    ||| e is Publish
    ||| e is Unpublish
    ||| e is Pin
    ||| e is Unpin
}

/// The flash that reports a change that went through.
pub open spec fn change_msg(e: ListEffectV) -> Seq<char> {
    match e {
        ListEffectV::Delete(_) => "Deleted"@,
        ListEffectV::Publish(_) => "Published"@,
        ListEffectV::Unpublish(_) => "Unpublished"@,
        ListEffectV::Pin(_) => "Pinned"@,
        _ => "Unpinned"@,
    }
}

/// The outcome of applying a theme: an error is flashed; a new theme is
/// recorded and a running server is restarted on a fresh build.
pub open spec fn theme_done_m(m: ListModel, theme: Seq<char>, r: Result<(), Seq<char>>) -> (ListModel, Seq<ListEffectV>) {
    match r {
        Err(e) => (ListModel { flash: Some("Theme error: "@ + e), ..m }, seq![]),
        Ok(_) => {
            let m1 = ListModel { current_theme: theme, flash: Some("Theme set to "@ + theme), ..m };
            if m.serving {
                let s = stop_serve_m(m1);
                let t = start_serve_m(s.0);
                (t.0, s.1 + t.1)
            } else {
                (m1, seq![])
            }
        },
    }
}

/// Fresh articles from the store: the selection stays put (held inside
/// the list) or goes to the top.
pub open spec fn apply_articles_m(m: ListModel, articles: Seq<Article>, keep: bool) -> ListModel {
    let prev: int = match m.selected {
        Some(i) => i as int,
        None => 0,
    };
    let sel = if articles.len() == 0 {
        None
    } else if keep {
        Some((if prev < articles.len() - 1 {
            prev
        } else {
            articles.len() - 1
        }) as usize)
    } else {
        Some(0usize)
    };
    ListModel { articles: articles, selected: sel, ..m }
}

/// Pushing an effect pushes its plain value.
proof fn lemma_effects_push(v: Seq<ListEffect>, e: ListEffect)
    ensures
        effects_view(v.push(e)) == effects_view(v) + seq![effect_view(e)],
{
    assert(effects_view(v.push(e)) =~= effects_view(v) + seq![effect_view(e)]);
}

/// Appends `e` to the effects.
fn emit(effects: &mut Vec<ListEffect>, e: ListEffect)
    ensures
        effects_view(final(effects)@) == effects_view(old(effects)@) + seq![effect_view(e)],
{
    proof {
        lemma_effects_push(effects@, e);
    }
    effects.push(e);
}

/// The first line of `s`, as `str::lines` cuts it, or all of `s`.
pub fn first_line_of(s: &str) -> (r: String)
    ensures
        r@ == first_line(s@),
{
    let cs = chars_of(s);
    let lines = lines_of(&cs);
    if lines.len() > 0 {
        proof {
            assert(lines@.map_values(|v: Vec<char>| v@)[0] == lines@[0]@);
        }
        string_of(&lines[0])
    } else {
        proof {
            assert(lines@.map_values(|v: Vec<char>| v@).len() == 0);
        }
        String::from_str(s)
    }
}

/// `prefix` followed by `tail`.
fn prefixed(prefix: &str, tail: &str) -> (r: String)
    ensures
        r@ == prefix@ + tail@,
{
    let mut out = chars_of(prefix);
    push_str(&mut out, tail);
    string_of(&out)
}

/// Whether two strings hold the same text.
fn same_text(a: &String, b: &String) -> (r: bool)
    ensures
        r == (a@ == b@),
{
    let ac = chars_of(a.as_str());
    let bc = chars_of(b.as_str());
    same_chars(&ac, &bc)
}

/// Where `cur` first stands among `themes`, or 0.
fn find_theme(themes: &Vec<String>, cur: &String) -> (r: usize)
    ensures
        r == theme_slot(themes@.map_values(|t: String| t@), cur@),
{
    let ghost ts = themes@.map_values(|t: String| t@);
    let mut i: usize = 0;
    while i < themes.len()
        invariant
            i <= themes.len(),
            ts == themes@.map_values(|t: String| t@),
            forall|j: int| 0 <= j < i ==> ts[j] != cur@,
        decreases themes.len() - i,
    {
        if same_text(&themes[i], cur) {
            proof {
                assert(ts[i as int] == cur@);
                let k = choose|k: int|
                    0 <= k < ts.len() && ts[k] == cur@ && forall|j: int| 0 <= j < k ==> ts[j] != cur@;
                assert(0 <= k < ts.len() && ts[k] == cur@ && forall|j: int| 0 <= j < k ==> ts[j] != cur@);
                assert(k == i as int) by {
                    if k < i as int {
                        assert(ts[k] != cur@);
                    }
                    if k > i as int {
                        assert(ts[i as int] != cur@);
                    }
                }
            }
            return i;
        }
        i += 1;
    }
    proof {
        assert(!exists|k: int| 0 <= k < ts.len() && ts[k] == cur@);
    }
    0
}

impl ListState {
    /// A list over `articles` with the first one selected, the blog's theme
    /// (`paper` when none is set) and the themes on offer.
    pub fn new(articles: Vec<Article>, config: &BlogConfig, themes: Vec<String>) -> (r: ListState)
        ensures
            r@ == (ListModel {
                articles: articles@,
                selected: if articles@.len() > 0 {
                    Some(0usize)
                } else {
                    None
                },
                search_query: Seq::empty(),
                search_active: false,
                flash: None,
                show_help: false,
                confirm_delete: None,
                building: false,
                built_once: false,
                last_error: None,
                show_error: false,
                serving: false,
                serve_after_build: false,
                deploying: false,
                deploy_preview: None,
                pushing: false,
                deploy_status: None,
                show_theme_picker: false,
                themes: themes@.map_values(|t: String| t@),
                theme_index: theme_slot(themes@.map_values(|t: String| t@), r.current_theme@),
                current_theme: match config.theme {
                    Some(t) => t@,
                    None => "paper"@,
                },
            }),
    {
        let selected = if articles.len() > 0 {
            Some(0usize)
        } else {
            None
        };
        let current_theme = match &config.theme {
            Some(t) => t.clone(),
            None => String::from_str("paper"),
        };
        let theme_index = find_theme(&themes, &current_theme);
        ListState {
            articles,
            selected,
            search_query: String::new(),
            search_active: false,
            flash: None,
            show_help: false,
            confirm_delete: None,
            building: false,
            build_result: Arc::new(new_mutex(None)),
            last_built: None,
            last_error: None,
            show_error: false,
            serving: false,
            serve_after_build: false,
            deploying: false,
            deploy_result: Arc::new(new_mutex(None)),
            deploy_preview: None,
            pushing: false,
            push_result: Arc::new(new_mutex(None)),
            deploy_status: None,
            show_theme_picker: false,
            themes,
            theme_index,
            current_theme,
        }
    }

    /// Shows `msg` from now on.
    fn set_flash(&mut self, msg: String)
        ensures
            final(self)@ == (ListModel { flash: Some(msg@), ..old(self)@ }),
            same_slots(*final(self), *old(self)),
    {
        self.flash = Some((msg, instant_now()));
    }

    /// Stop the server if it runs.
    pub fn stop_serve(&mut self, effects: &mut Vec<ListEffect>)
        ensures
            final(self)@ == stop_serve_m(old(self)@).0,
            effects_view(final(effects)@) == effects_view(old(effects)@) + stop_serve_m(old(self)@).1,
            same_slots(*final(self), *old(self)),
    {
        if !self.serving {
            assert(effects_view(effects@) =~= effects_view(effects@) + Seq::<ListEffectV>::empty());
            return;
        }
        emit(effects, ListEffect::StopServe);
        self.serving = false;
        self.set_flash(String::from_str("Server stopped"));
    }

    /// Start a build unless one runs.
    pub fn start_build(&mut self, effects: &mut Vec<ListEffect>)
        ensures
            final(self)@ == start_build_m(old(self)@).0,
            effects_view(final(effects)@) == effects_view(old(effects)@) + start_build_m(old(self)@).1,
            same_slots(*final(self), *old(self)),
    {
        if self.building {
            assert(effects_view(effects@) =~= effects_view(effects@) + Seq::<ListEffectV>::empty());
            return;
        }
        self.building = true;
        emit(effects, ListEffect::SpawnBuild);
    }

    /// Build first, then serve once the build is done, unless the server runs.
    pub fn start_serve(&mut self, effects: &mut Vec<ListEffect>)
        ensures
            final(self)@ == start_serve_m(old(self)@).0,
            effects_view(final(effects)@) == effects_view(old(effects)@) + start_serve_m(old(self)@).1,
            same_slots(*final(self), *old(self)),
    {
        if self.serving {
            assert(effects_view(effects@) =~= effects_view(effects@) + Seq::<ListEffectV>::empty());
            return;
        }
        self.serve_after_build = true;
        self.start_build(effects);
    }

    /// Start the server now.
    fn spawn_serve(&mut self, effects: &mut Vec<ListEffect>)
        ensures
            final(self)@ == spawn_serve_m(old(self)@).0,
            effects_view(final(effects)@) == effects_view(old(effects)@) + spawn_serve_m(old(self)@).1,
            same_slots(*final(self), *old(self)),
    {
        self.serving = true;
        emit(effects, ListEffect::SpawnServe);
        let port = decimal_of(SERVE_PORT as usize);
        let mut msg = chars_of("Serving at http://localhost:");
        push_all(&mut msg, &port);
        self.set_flash(string_of(&msg));
    }

    /// Start a deploy unless a deploy or a build runs.
    pub fn start_deploy(&mut self, effects: &mut Vec<ListEffect>)
        ensures
            final(self)@ == start_deploy_m(old(self)@).0,
            effects_view(final(effects)@) == effects_view(old(effects)@) + start_deploy_m(old(self)@).1,
            same_slots(*final(self), *old(self)),
    {
        if self.deploying || self.building {
            assert(effects_view(effects@) =~= effects_view(effects@) + Seq::<ListEffectV>::empty());
            return;
        }
        self.deploying = true;
        self.set_flash(String::from_str("Deploying..."));
        emit(effects, ListEffect::SpawnDeploy);
    }

    /// Push the previewed deploy unless a push runs.
    pub fn start_push(&mut self, effects: &mut Vec<ListEffect>)
        ensures
            final(self)@ == start_push_m(old(self)@).0,
            effects_view(final(effects)@) == effects_view(old(effects)@) + start_push_m(old(self)@).1,
            same_slots(*final(self), *old(self)),
    {
        if self.pushing {
            assert(effects_view(effects@) =~= effects_view(effects@) + Seq::<ListEffectV>::empty());
            return;
        }
        let preview = self.deploy_preview.take();
        match preview {
            None => {
                assert(effects_view(effects@) =~= effects_view(effects@) + Seq::<ListEffectV>::empty());
            },
            Some(p) => {
                self.pushing = true;
                self.set_flash(String::from_str("Pushing..."));
                emit(effects, ListEffect::SpawnPush(p.deploy_dir));
            },
        }
    }

    /// Move the selection by `delta` rows, held inside the list.
    pub fn move_selection(&mut self, delta: i32)
        ensures
            final(self)@ == move_m(old(self)@, delta as int),
            same_slots(*final(self), *old(self)),
    {
        let len = self.articles.len();
        if len == 0 {
            return;
        }
        let cur: usize = match self.selected {
            Some(i) => i,
            None => 0,
        };
        let last = len - 1;
        let next: usize = if delta >= 0 {
            let d = delta as usize;
            if cur > last || last - cur <= d {
                last
            } else {
                cur + d
            }
        } else {
            let d: usize = (0i64 - delta as i64) as usize;
            if cur <= d {
                0
            } else if cur - d > last {
                last
            } else {
                cur - d
            }
        };
        self.selected = Some(next);
    }

    /// The selected article, when the selection points into the list.
    pub fn selected_article(&self) -> (r: Option<&Article>)
        ensures
            match r {
                Some(a) => selected_article(self@) == Some(*a),
                None => selected_article(self@) is None,
            },
    {
        match self.selected {
            Some(i) => if i < self.articles.len() {
                Some(&self.articles[i])
            } else {
                None
            },
            None => None,
        }
    }

    /// The filter to list articles by: the search text, unless it is empty.
    pub fn search_filter(&self) -> (r: Option<String>)
        ensures
            match r {
                Some(q) => q@ == self.search_query@ && q@.len() > 0,
                None => self.search_query@.len() == 0,
            },
    {
        let q = chars_of(self.search_query.as_str());
        if q.len() == 0 {
            None
        } else {
            Some(self.search_query.clone())
        }
    }

    /// A key from the terminal: what the host must do, in order, and the
    /// action to hand to the dispatcher, if any.
    pub fn handle_key(&mut self, key: Key, control: bool, effects: &mut Vec<ListEffect>) -> (r: Option<ListAction>)
        ensures
            final(self)@ == key_m(old(self)@, key, control).0,
            r == key_m(old(self)@, key, control).1,
            effects_view(final(effects)@) == effects_view(old(effects)@) + key_m(old(self)@, key, control).2,
            same_slots(*final(self), *old(self)),
    {
        let ghost e0 = effects_view(effects@);
        if self.deploy_status.is_some() {
            self.deploy_status = None;
            assert(effects_view(effects@) =~= e0 + Seq::<ListEffectV>::empty());
            return None;
        }
        if self.show_error {
            if key == Key::Esc {
                self.show_error = false;
            }
            assert(effects_view(effects@) =~= e0 + Seq::<ListEffectV>::empty());
            return None;
        }
        if let Some(id) = self.confirm_delete {
            self.confirm_delete = None;
            if key == Key::Char('y') && self.selected_article().is_some() {
                emit(effects, ListEffect::Delete(id));
            } else {
                assert(effects_view(effects@) =~= e0 + Seq::<ListEffectV>::empty());
            }
            return None;
        }
        if self.deploy_preview.is_some() {
            if key == Key::Char('y') {
                self.start_push(effects);
            } else if key == Key::Esc {
                self.deploy_preview = None;
                assert(effects_view(effects@) =~= e0 + Seq::<ListEffectV>::empty());
            } else {
                assert(effects_view(effects@) =~= e0 + Seq::<ListEffectV>::empty());
            }
            return None;
        }
        if self.show_theme_picker {
            self.theme_key(key, effects);
            return None;
        }
        if self.show_help {
            self.show_help = false;
            assert(effects_view(effects@) =~= e0 + Seq::<ListEffectV>::empty());
            return None;
        }
        if self.search_active {
            self.search_key(key, effects);
            return None;
        }
        self.normal_key(key, control, effects)
    }

    /// A key while the theme picker is open.
    fn theme_key(&mut self, key: Key, effects: &mut Vec<ListEffect>)
        ensures
            final(self)@ == theme_key_m(old(self)@, key).0,
            effects_view(final(effects)@) == effects_view(old(effects)@) + theme_key_m(old(self)@, key).1,
            same_slots(*final(self), *old(self)),
    {
        let ghost e0 = effects_view(effects@);
        let ghost ts = self.themes@.map_values(|t: String| t@);
        if key == Key::Char('j') || key == Key::Down {
            if self.theme_index < self.themes.len() && self.theme_index + 1 < self.themes.len() {
                self.theme_index = self.theme_index + 1;
            }
        } else if key == Key::Char('k') || key == Key::Up {
            if self.theme_index > 0 {
                self.theme_index = self.theme_index - 1;
            }
        } else if key == Key::Enter {
            if self.theme_index < self.themes.len() {
                let theme = self.themes[self.theme_index].clone();
                if !same_text(&theme, &self.current_theme) {
                    proof {
                        assert(ts[self.theme_index as int] == theme@);
                    }
                    emit(effects, ListEffect::ApplyTheme(theme));
                    self.show_theme_picker = false;
                    return;
                }
            }
            self.show_theme_picker = false;
        } else if key == Key::Esc {
            self.show_theme_picker = false;
        }
        assert(effects_view(effects@) =~= e0 + Seq::<ListEffectV>::empty());
    }

    /// A key while the search line is open.
    fn search_key(&mut self, key: Key, effects: &mut Vec<ListEffect>)
        ensures
            final(self)@ == search_key_m(old(self)@, key).0,
            effects_view(final(effects)@) == effects_view(old(effects)@) + search_key_m(old(self)@, key).1,
            same_slots(*final(self), *old(self)),
    {
        let ghost e0 = effects_view(effects@);
        match key {
            Key::Esc => {
                self.search_active = false;
                self.search_query = String::new();
                emit(effects, ListEffect::Refresh(true));
            },
            Key::Enter => {
                self.search_active = false;
                assert(effects_view(effects@) =~= e0 + Seq::<ListEffectV>::empty());
            },
            Key::Backspace => {
                let mut q = chars_of(self.search_query.as_str());
                if q.len() > 0 {
                    q.pop();
                }
                self.search_query = string_of(&q);
                emit(effects, ListEffect::Refresh(false));
            },
            Key::Char(c) => {
                let mut q = chars_of(self.search_query.as_str());
                q.push(c);
                self.search_query = string_of(&q);
                emit(effects, ListEffect::Refresh(false));
            },
            _ => {
                assert(effects_view(effects@) =~= e0 + Seq::<ListEffectV>::empty());
            },
        }
    }

    /// A key in the normal mode of the list.
    fn normal_key(&mut self, key: Key, control: bool, effects: &mut Vec<ListEffect>) -> (r: Option<ListAction>)
        ensures
            final(self)@ == normal_key_m(old(self)@, key, control).0,
            r == normal_key_m(old(self)@, key, control).1,
            effects_view(final(effects)@) == effects_view(old(effects)@) + normal_key_m(old(self)@, key, control).2,
            same_slots(*final(self), *old(self)),
    {
        let ghost e0 = effects_view(effects@);
        if key == Key::Char('j') || key == Key::Down || key == Key::Char('k') || key == Key::Up || key
            == Key::Char('G') || key == Key::Char('g') {
            self.selection_key(key);
            assert(effects_view(effects@) =~= e0 + Seq::<ListEffectV>::empty());
            None
        } else if key == Key::Enter || key == Key::Char('n') || key == Key::Char('p') || key == Key::Char('i')
            || key == Key::Char('d') {
            self.article_key(key, effects)
        } else if key == Key::Char('t') || key == Key::Char('e') || key == Key::Char('/') || key
            == Key::Char('?') {
            self.overlay_key(key);
            assert(effects_view(effects@) =~= e0 + Seq::<ListEffectV>::empty());
            None
        } else {
            self.server_key(key, control, effects)
        }
    }

    /// A key that moves the selection.
    fn selection_key(&mut self, key: Key)
        requires
            is_selection_key(key),
        ensures
            final(self)@ == selection_key_m(old(self)@, key),
            same_slots(*final(self), *old(self)),
    {
        if key == Key::Char('j') || key == Key::Down {
            self.move_selection(1);
        } else if key == Key::Char('k') || key == Key::Up {
            self.move_selection(-1);
        } else if key == Key::Char('G') {
            if self.articles.len() > 0 {
                self.selected = Some(self.articles.len() - 1);
            }
        } else {
            self.selected = Some(0);
        }
    }

    /// A key that acts on the selected article or asks for a new one.
    fn article_key(&mut self, key: Key, effects: &mut Vec<ListEffect>) -> (r: Option<ListAction>)
        requires
            is_article_key(key),
        ensures
            final(self)@ == article_key_m(old(self)@, key).0,
            r == article_key_m(old(self)@, key).1,
            effects_view(final(effects)@) == effects_view(old(effects)@) + article_key_m(old(self)@, key).2,
            same_slots(*final(self), *old(self)),
    {
        let ghost e0 = effects_view(effects@);
        if key == Key::Char('n') {
            assert(effects_view(effects@) =~= e0 + Seq::<ListEffectV>::empty());
            return Some(ListAction::New);
        }
        let sel = self.selected_article();
        match sel {
            None => {
                assert(effects_view(effects@) =~= e0 + Seq::<ListEffectV>::empty());
                None
            },
            Some(a) => {
                let id = a.id;
                if key == Key::Enter {
                    assert(effects_view(effects@) =~= e0 + Seq::<ListEffectV>::empty());
                    Some(ListAction::Edit(id))
                } else if key == Key::Char('p') {
                    let e = match a.status {
                        Status::Draft => ListEffect::Publish(id),
                        Status::Published => ListEffect::Unpublish(id),
                    };
                    emit(effects, e);
                    None
                } else if key == Key::Char('i') {
                    let e = if a.pinned {
                        ListEffect::Unpin(id)
                    } else {
                        ListEffect::Pin(id)
                    };
                    emit(effects, e);
                    None
                } else {
                    self.confirm_delete = Some(id);
                    assert(effects_view(effects@) =~= e0 + Seq::<ListEffectV>::empty());
                    None
                }
            },
        }
    }

    /// A key that opens an overlay or the search line.
    fn overlay_key(&mut self, key: Key)
        requires
            is_overlay_key(key),
        ensures
            final(self)@ == overlay_key_m(old(self)@, key),
            same_slots(*final(self), *old(self)),
    {
        if key == Key::Char('t') {
            if self.themes.len() > 0 {
                self.theme_index = find_theme(&self.themes, &self.current_theme);
                self.show_theme_picker = true;
            }
        } else if key == Key::Char('e') {
            if self.last_error.is_some() {
                self.show_error = true;
            }
        } else if key == Key::Char('/') {
            self.search_active = true;
            self.search_query = String::new();
        } else {
            self.show_help = true;
        }
    }

    /// A key for the server, the build or the deploy, or to quit.
    fn server_key(&mut self, key: Key, control: bool, effects: &mut Vec<ListEffect>) -> (r: Option<ListAction>)
        ensures
            final(self)@ == server_key_m(old(self)@, key, control).0,
            r == server_key_m(old(self)@, key, control).1,
            effects_view(final(effects)@) == effects_view(old(effects)@) + server_key_m(old(self)@, key, control).2,
            same_slots(*final(self), *old(self)),
    {
        let ghost e0 = effects_view(effects@);
        if key == Key::Char('q') || (key == Key::Char('c') && control) {
            self.stop_serve(effects);
            Some(ListAction::Quit)
        } else if key == Key::Char('b') {
            self.start_build(effects);
            None
        } else if key == Key::Char('s') {
            if self.serving {
                self.stop_serve(effects);
            } else {
                self.start_serve(effects);
            }
            None
        } else if key == Key::Char('o') {
            if !self.serving {
                self.start_serve(effects);
            } else {
                assert(effects_view(effects@) =~= e0 + Seq::<ListEffectV>::empty());
            }
            let ghost e1 = effects_view(effects@);
            emit(effects, ListEffect::OpenBrowser);
            proof {
                assert(start_serve_m(old(self)@).1.push(ListEffectV::OpenBrowser) =~= start_serve_m(
                    old(self)@,
                ).1 + seq![ListEffectV::OpenBrowser]);
                assert(e0 + (start_serve_m(old(self)@).1 + seq![ListEffectV::OpenBrowser]) =~= (e0
                    + start_serve_m(old(self)@).1) + seq![ListEffectV::OpenBrowser]);
            }
            None
        } else if key == Key::Char('D') {
            if !self.deploying {
                self.start_deploy(effects);
            } else {
                assert(effects_view(effects@) =~= e0 + Seq::<ListEffectV>::empty());
            }
            None
        } else {
            assert(effects_view(effects@) =~= e0 + Seq::<ListEffectV>::empty());
            None
        }
    }

    /// The outcome of a build that finished.
    pub fn on_build_result(&mut self, result: Result<String, String>, effects: &mut Vec<ListEffect>)
        ensures
            (final(self)@, effects_view(final(effects)@)) == (
                build_done_m(old(self)@, result_view(result)).0,
                effects_view(old(effects)@) + build_done_m(old(self)@, result_view(result)).1,
            ),
            same_slots(*final(self), *old(self)),
    {
        let ghost e0 = effects_view(effects@);
        self.building = false;
        match result {
            Ok(msg) => {
                self.set_flash(msg);
                self.last_built = Some(instant_now());
                if self.serve_after_build {
                    self.serve_after_build = false;
                    self.spawn_serve(effects);
                } else {
                    assert(effects_view(effects@) =~= e0 + Seq::<ListEffectV>::empty());
                }
            },
            Err(err) => {
                self.serve_after_build = false;
                let first = first_line_of(err.as_str());
                self.set_flash(prefixed("Build failed: ", first.as_str()));
                self.last_error = Some(err);
                assert(effects_view(effects@) =~= e0 + Seq::<ListEffectV>::empty());
            },
        }
    }

    /// Picks up the result of the background build, if one arrived.
    pub fn poll_build_result(&mut self, effects: &mut Vec<ListEffect>)
        ensures
            (*final(self) == *old(self) && final(effects)@ == old(effects)@) || exists|r: Result<Seq<char>, Seq<char>>|
                (final(self)@, effects_view(final(effects)@)) == (
                    #[trigger] build_done_m(old(self)@, r).0,
                    effects_view(old(effects)@) + build_done_m(old(self)@, r).1,
                ),
            same_slots(*final(self), *old(self)),
    {
        let slot = lock_take(&*self.build_result);
        match slot {
            Some(Some(result)) => {
                self.on_build_result(result, effects);
            },
            _ => {},
        }
    }

    /// The outcome of a deploy that finished.
    pub fn on_deploy_result(&mut self, result: Result<DeployPreview, String>)
        ensures
            final(self)@ == deploy_done_m(old(self)@, deploy_view(result)),
            same_slots(*final(self), *old(self)),
    {
        self.deploying = false;
        self.last_built = Some(instant_now());
        match result {
            Ok(preview) => {
                let diff = chars_of(preview.diff.as_str());
                if diff.len() == 0 {
                    self.set_flash(String::from_str("Nothing to deploy"));
                } else {
                    self.deploy_preview = Some(preview);
                    self.flash = None;
                }
            },
            Err(err) => {
                let first = first_line_of(err.as_str());
                self.set_flash(prefixed("Deploy failed: ", first.as_str()));
                self.last_error = Some(err);
            },
        }
    }

    /// Picks up the result of the background deploy, if one arrived.
    pub fn poll_deploy_result(&mut self)
        ensures
            *final(self) == *old(self) || exists|r: Result<(Seq<char>, Seq<char>), Seq<char>>|
                final(self)@ == #[trigger] deploy_done_m(old(self)@, r),
            same_slots(*final(self), *old(self)),
    {
        let slot = lock_take(&*self.deploy_result);
        match slot {
            Some(Some(result)) => {
                self.on_deploy_result(result);
            },
            _ => {},
        }
    }

    /// The outcome of a push that finished.
    pub fn on_push_result(&mut self, result: Result<String, String>)
        ensures
            final(self)@ == push_done_m(old(self)@, result_view(result)),
            same_slots(*final(self), *old(self)),
    {
        self.pushing = false;
        match result {
            Ok(msg) => {
                self.deploy_status = Some(msg);
            },
            Err(err) => {
                let first = first_line_of(err.as_str());
                self.set_flash(prefixed("Push failed: ", first.as_str()));
                self.last_error = Some(err);
            },
        }
    }

    /// Picks up the result of the background push, if one arrived.
    pub fn poll_push_result(&mut self)
        ensures
            *final(self) == *old(self) || exists|r: Result<Seq<char>, Seq<char>>|
                final(self)@ == #[trigger] push_done_m(old(self)@, r),
            same_slots(*final(self), *old(self)),
    {
        let slot = lock_take(&*self.push_result);
        match slot {
            Some(Some(result)) => {
                self.on_push_result(result);
            },
            _ => {},
        }
    }

    /// A change to an article went through: say so and reload the list.
    pub fn after_change(&mut self, change: &ListEffect, effects: &mut Vec<ListEffect>)
        requires
            is_change(effect_view(*change)),
        ensures
            final(self)@ == (ListModel { flash: Some(change_msg(effect_view(*change))), ..old(self)@ }),
            effects_view(final(effects)@) == effects_view(old(effects)@) + seq![ListEffectV::Refresh(true)],
            same_slots(*final(self), *old(self)),
    {
        let msg = match change {
            ListEffect::Delete(_) => "Deleted",
            ListEffect::Publish(_) => "Published",
            ListEffect::Unpublish(_) => "Unpublished",
            ListEffect::Pin(_) => "Pinned",
            _ => "Unpinned",
        };
        self.set_flash(String::from_str(msg));
        emit(effects, ListEffect::Refresh(true));
    }

    /// The outcome of applying `theme`.
    pub fn after_theme(&mut self, theme: String, result: Result<(), String>, effects: &mut Vec<ListEffect>)
        ensures
            (final(self)@, effects_view(final(effects)@)) == (
                theme_done_m(old(self)@, theme@, unit_view(result)).0,
                effects_view(old(effects)@) + theme_done_m(old(self)@, theme@, unit_view(result)).1,
            ),
            same_slots(*final(self), *old(self)),
    {
        let ghost e0 = effects_view(effects@);
        match result {
            Err(e) => {
                self.set_flash(prefixed("Theme error: ", e.as_str()));
                assert(effects_view(effects@) =~= e0 + Seq::<ListEffectV>::empty());
            },
            Ok(_) => {
                let msg = prefixed("Theme set to ", theme.as_str());
                self.current_theme = theme;
                self.set_flash(msg);
                if self.serving {
                    self.stop_serve(effects);
                    let ghost e1 = effects_view(effects@);
                    self.start_serve(effects);
                    proof {
                        assert(effects_view(effects@) =~= e0 + (e1.subrange(e0.len() as int, e1.len() as int)
                            + effects_view(effects@).subrange(e1.len() as int, effects_view(effects@).len() as int)));
                    }
                } else {
                    assert(effects_view(effects@) =~= e0 + Seq::<ListEffectV>::empty());
                }
            },
        }
    }

    /// Fresh articles from the store; `keep` holds the selection where it
    /// was (inside the list), otherwise it goes to the top.
    pub fn apply_articles(&mut self, articles: Vec<Article>, keep: bool)
        ensures
            final(self)@ == apply_articles_m(old(self)@, articles@, keep),
            same_slots(*final(self), *old(self)),
    {
        let prev: usize = match self.selected {
            Some(i) => i,
            None => 0,
        };
        let len = articles.len();
        self.articles = articles;
        if len == 0 {
            self.selected = None;
        } else if keep {
            let idx = if prev < len - 1 {
                prev
            } else {
                len - 1
            };
            self.selected = Some(idx);
        } else {
            self.selected = Some(0);
        }
    }

    /// Clears the flash once it has been shown for more than two seconds.
    pub fn expire_flash(&mut self)
        ensures
            *final(self) == *old(self) || (old(self).flash is Some && *final(self) == (ListState {
                flash: None,
                ..*old(self)
            })),
    {
        let expired = match &self.flash {
            Some((_, shown)) => elapsed_nanos(shown) > 2_000_000_000,
            None => false,
        };
        if expired {
            self.flash = None;
        }
    }

    /// What the header says of the background work.
    pub fn status_label(&self) -> (r: String)
        ensures
            r@ == (if self.deploying {
                "deploying..."@
            } else if self.pushing {
                "pushing..."@
            } else if self.building {
                "building..."@
            } else if self.serving {
                "serving :"@ + decimal(SERVE_PORT as nat)
            } else {
                "server stopped"@
            }),
    {
        if self.deploying {
            String::from_str("deploying...")
        } else if self.pushing {
            String::from_str("pushing...")
        } else if self.building {
            String::from_str("building...")
        } else if self.serving {
            let port = decimal_of(SERVE_PORT as usize);
            let mut out = chars_of("serving :");
            push_all(&mut out, &port);
            string_of(&out)
        } else {
            String::from_str("server stopped")
        }
    }
}

/// The plain value of a text result.
pub open spec fn result_view(r: Result<String, String>) -> Result<Seq<char>, Seq<char>> {
    match r {
        Ok(s) => Ok(s@),
        Err(e) => Err(e@),
    }
}

/// The plain value of a deploy result.
pub open spec fn deploy_view(r: Result<DeployPreview, String>) -> Result<(Seq<char>, Seq<char>), Seq<char>> {
    match r {
        Ok(p) => Ok((p.diff@, p.deploy_dir@)),
        Err(e) => Err(e@),
    }
}

/// The plain value of a result that carries nothing on success.
pub open spec fn unit_view(r: Result<(), String>) -> Result<(), Seq<char>> {
    match r {
        Ok(_) => Ok(()),
        Err(e) => Err(e@),
    }
}

/// The pieces of `parts` trimmed, the empty ones dropped.
pub open spec fn trimmed_fields(parts: Seq<Seq<char>>) -> Seq<Seq<char>>
    decreases parts.len(),
{
    if parts.len() == 0 {
        Seq::empty()
    } else {
        let prev = trimmed_fields(parts.drop_last());
        if trim_ws(parts.last()).len() > 0 {
            prev.push(trim_ws(parts.last()))
        } else {
            prev
        }
    }
}

/// How one line of a deploy status is shown: a row of the deployment table
/// (cells between `│`, at least five of them) as labelled fields, any other
/// non-empty line indented by a space, an empty line not at all.
pub open spec fn status_line_view(line: Seq<char>) -> Seq<Seq<char>> {
    let fields = trimmed_fields(split_on(line, '│'));
    if line.contains('│') && fields.len() >= 5 {
        seq![
            " Environment: "@ + fields[1],
            " Branch:      "@ + fields[2],
            " Commit:      "@ + fields[3],
            " URL:         "@ + fields[4],
        ] + if fields.len() > 5 {
            seq![" Deployed:    "@ + fields[5]]
        } else {
            Seq::<Seq<char>>::empty()
        }
    } else if line.len() > 0 {
        seq![" "@ + line]
    } else {
        Seq::empty()
    }
}

/// The shown lines of all of `lines`, in order.
pub open spec fn status_lines_view(lines: Seq<Seq<char>>) -> Seq<Seq<char>>
    decreases lines.len(),
{
    if lines.len() == 0 {
        Seq::empty()
    } else {
        status_lines_view(lines.drop_last()) + status_line_view(lines.last())
    }
}

fn contains_char(s: &[char], c: char) -> (r: bool)
    ensures
        r == s@.contains(c),
{
    let mut i: usize = 0;
    while i < s.len()
        invariant
            i <= s@.len(),
            forall|j: int| 0 <= j < i ==> s@[j] != c,
        decreases s@.len() - i,
    {
        if s[i] == c {
            return true;
        }
        i += 1;
    }
    false
}

fn labelled(label: &str, field: &[char]) -> (r: String)
    ensures
        r@ == label@ + field@,
{
    let mut out = chars_of(label);
    push_all(&mut out, field);
    string_of(&out)
}

fn trimmed_nonempty(parts: &Vec<Vec<char>>) -> (r: Vec<Vec<char>>)
    ensures
        vecs_view(r@) == trimmed_fields(vecs_view(parts@)),
{
    let ghost pv = vecs_view(parts@);
    let mut out: Vec<Vec<char>> = Vec::new();
    let mut i: usize = 0;
    while i < parts.len()
        invariant
            i <= parts@.len(),
            pv == vecs_view(parts@),
            vecs_view(out@) == trimmed_fields(pv.take(i as int)),
        decreases parts@.len() - i,
    {
        assert(pv.take(i + 1).drop_last() =~= pv.take(i as int));
        assert(pv.take(i + 1).last() == parts@[i as int]@);
        let t = trim(parts[i].as_slice());
        if t.len() > 0 {
            let ghost before = out@;
            out.push(t);
            assert(vecs_view(out@) =~= vecs_view(before).push(t@));
        }
        i += 1;
    }
    assert(pv.take(parts@.len() as int) =~= pv);
    out
}

fn status_line(line: &[char]) -> (r: Vec<String>)
    ensures
        strings_view(r@) == status_line_view(line@),
{
    let pieces = split_chars(line, '│');
    let fields = trimmed_nonempty(&pieces);
    let mut out: Vec<String> = Vec::new();
    if contains_char(line, '│') && fields.len() >= 5 {
        out.push(labelled(" Environment: ", fields[1].as_slice()));
        out.push(labelled(" Branch:      ", fields[2].as_slice()));
        out.push(labelled(" Commit:      ", fields[3].as_slice()));
        out.push(labelled(" URL:         ", fields[4].as_slice()));
        if fields.len() > 5 {
            out.push(labelled(" Deployed:    ", fields[5].as_slice()));
        }
        assert(strings_view(out@) =~= status_line_view(line@));
    } else if line.len() > 0 {
        out.push(labelled(" ", line));
        assert(strings_view(out@) =~= status_line_view(line@));
    } else {
        assert(strings_view(out@) =~= status_line_view(line@));
    }
    out
}

/// The lines of the deploy status dialog's body, from the push result and
/// the deployment listing it carries.
pub fn deploy_status_lines(status: &str) -> (r: Vec<String>)
    ensures
        strings_view(r@) == status_lines_view(std_lines(status@)),
{
    let cs = chars_of(status);
    let lines = lines_of(cs.as_slice());
    let ghost lv = lines@.map_values(|v: Vec<char>| v@);
    let mut out: Vec<String> = Vec::new();
    let mut i: usize = 0;
    while i < lines.len()
        invariant
            i <= lines@.len(),
            lv == lines@.map_values(|v: Vec<char>| v@),
            strings_view(out@) == status_lines_view(lv.take(i as int)),
        decreases lines@.len() - i,
    {
        assert(lv.take(i + 1).drop_last() =~= lv.take(i as int));
        assert(lv.take(i + 1).last() == lines@[i as int]@);
        let ghost before = out@;
        let mut more = status_line(lines[i].as_slice());
        let ghost added = more@;
        out.append(&mut more);
        assert(strings_view(out@) =~= strings_view(before) + strings_view(added));
        i += 1;
    }
    assert(lv.take(lines@.len() as int) =~= lv);
    out
}

/// The date column of an article's row: a space, then the first ten bytes
/// of its publication date (else its creation date), or ten spaces when
/// those are not ten bytes of whole characters.
pub fn date_cell(article: &Article) -> (r: String)
    ensures
        r@ == " "@ + match byte_prefix(
            match article.published_at {
                Some(p) => p@,
                None => article.created_at@,
            },
            10,
        ) {
            Some(p) => p,
            None => "          "@,
        },
{
    let source = match &article.published_at {
        Some(p) => chars_of(p.as_str()),
        None => chars_of(article.created_at.as_str()),
    };
    let mut out = chars_of(" ");
    match byte_prefix_of(&source, 10) {
        Some(p) => push_all(&mut out, &p),
        None => push_str(&mut out, "          "),
    }
    string_of(&out)
}

/// The title column of an article's row: a space, then the title; one of
/// more than 60 bytes is cut to its first 57 and gets `...`.
pub fn title_cell(title: &str) -> (r: String)
    requires
        utf8_len(title@) > 60 ==> byte_prefix(title@, 57) is Some,
    ensures
        r@ == if utf8_len(title@) > 60 {
            " "@ + byte_prefix(title@, 57)->0 + "..."@
        } else {
            " "@ + title@
        },
{
    let cs = chars_of(title);
    let mut out = chars_of(" ");
    if utf8_longer_than(&cs, 60) {
        match byte_prefix_of(&cs, 57) {
            Some(p) => push_all(&mut out, &p),
            None => {},
        }
        push_str(&mut out, "...");
    } else {
        push_all(&mut out, &cs);
    }
    string_of(&out)
}

} // verus!
