//! Conversations: their state, their place among the stored files, and the rules for listing,
//! trimming and pruning them.

use vstd::prelude::*;

use crate::clock;
use crate::clock::Timestamp;
use crate::llm;
use crate::llm::{Message, MessageModel, Usage};
use crate::order;
use crate::text;

verus! {

/// The top-level workflow of a session.
#[derive(Clone, Copy, PartialEq, Eq, Structural, Debug)]
pub enum WorkflowMode {
    Quick,
    Full,
}

impl Default for WorkflowMode {
    fn default() -> (m: WorkflowMode)
        ensures
            m == WorkflowMode::Full,
    {
        WorkflowMode::Full
    }
}

/// The kind of task within the quick workflow.
#[derive(Clone, Copy, PartialEq, Eq, Structural, Debug)]
pub enum QuickMode {
    Auto,
    Inspiration,
    Schedule,
    Mapping,
    Xhs,
    Ctrip,
    Knowledge,
}

impl Default for QuickMode {
    fn default() -> (m: QuickMode)
        ensures
            m == QuickMode::Auto,
    {
        QuickMode::Auto
    }
}

/// What the assistant says when a session opens.
pub const GREETING: &'static str = "嗨～我是拾光者 🎒 你的专属旅游搭子！\n快捷模式：可以快速完成目的地种草、已有地点排程、地图、小红书总结、携程候选酒店核验等一次性任务。\n完整攻略：会从需求、路线、景点、住宿和交通开始，分阶段整理成最终攻略。\n个人知识库目前尚未启用。你想去哪儿玩，或者先把已有地点发给我？";

/// One conversation.
pub struct Session {
    pub id: String,
    pub messages: Vec<Message>,
    pub usage: Usage,
    /// The current phase of the full workflow, 0 to 5.
    pub phase: u8,
    pub workflow_mode: WorkflowMode,
    /// The quick task; kept, but without effect, in the full workflow.
    pub quick_mode: QuickMode,
    /// When the last turn ended.
    pub updated_at: Option<Timestamp>,
    /// The name shown to the user; without one the id is shown.
    pub name: Option<String>,
    /// The account that owns the session.
    pub owner_user_id: Option<i64>,
}

/// What a session holds.
pub struct SessionModel {
    pub id: Seq<char>,
    pub messages: Seq<MessageModel>,
    pub usage: Usage,
    pub phase: u8,
    pub workflow_mode: WorkflowMode,
    pub quick_mode: QuickMode,
    pub updated_at: Option<Timestamp>,
    pub name: Option<Seq<char>>,
    pub owner_user_id: Option<i64>,
}

impl View for Session {
    type V = SessionModel;

    open spec fn view(&self) -> SessionModel {
        SessionModel {
            id: self.id@,
            messages: llm::message_models(self.messages@),
            usage: self.usage,
            phase: self.phase,
            workflow_mode: self.workflow_mode,
            quick_mode: self.quick_mode,
            updated_at: self.updated_at,
            name: llm::opt_text(self.name),
            owner_user_id: self.owner_user_id,
        }
    }
}

pub open spec fn session_models(sessions: Seq<Session>) -> Seq<SessionModel> {
    sessions.map_values(|s: Session| s@)
}

impl SessionModel {
    /// A session that has just been opened.
    pub open spec fn opened(id: Seq<char>, mode: WorkflowMode, at: Timestamp) -> SessionModel {
        SessionModel {
            id,
            messages: seq![llm::plain_message("assistant"@, GREETING@)],
            usage: Usage::zero(),
            phase: 0,
            workflow_mode: mode,
            quick_mode: QuickMode::Auto,
            updated_at: Some(at),
            name: None,
            owner_user_id: None,
        }
    }

    /// The session with only its last `max` messages.
    pub open spec fn trimmed(self, max: Option<usize>) -> SessionModel {
        match max {
            Some(n) => if self.messages.len() > n {
                SessionModel { messages: self.messages.skip(self.messages.len() - n), ..self }
            } else {
                self
            },
            None => self,
        }
    }

    /// The session with an owner, where it had none.
    pub open spec fn claimed(self, owner: i64) -> SessionModel {
        if self.owner_user_id is None {
            SessionModel { owner_user_id: Some(owner), ..self }
        } else {
            self
        }
    }
}

// ---- File names ----

/// `char::is_alphanumeric` on a character outside ASCII.
pub uninterp spec fn alphanumeric_beyond_ascii(c: char) -> bool;

/// `char::is_alphanumeric`: the answer depends on the character alone.
#[verifier::external_body]
fn is_alphanumeric_beyond_ascii(c: char) -> (b: bool)
    ensures
        b == alphanumeric_beyond_ascii(c),
{
    c.is_alphanumeric()
}

/// Whether a character of an id may stand in a file name.
pub open spec fn allowed_in_file_name(c: char) -> bool {
    if (c as u32) < 128 {
        text::is_ascii_letter(c) || text::is_digit(c) || c == '-' || c == '_'
    } else {
        alphanumeric_beyond_ascii(c)
    }
}

/// An id with every character that may not stand in a file name made an underscore.
pub open spec fn file_stem(id: Seq<char>) -> Seq<char> {
    id.map_values(
        |c: char|
            if allowed_in_file_name(c) {
                c
            } else {
                '_'
            },
    )
}

pub fn sanitize(id: &str) -> (r: String)
    ensures
        r@ == file_stem(id@),
{
    let v = text::chars_of(id);
    let mut out = String::new();
    let mut i: usize = 0;
    while i < v.len()
        invariant
            v@ == id@,
            i <= v@.len(),
            out@ == file_stem(id@.take(i as int)),
        decreases v@.len() - i,
    {
        let c = v[i];
        let keep = if (c as u32) < 128 {
            text::is_ascii_alphabetic(c) || text::is_ascii_digit(c) || c == '-' || c == '_'
        } else {
            is_alphanumeric_beyond_ascii(c)
        };
        let d = if keep {
            c
        } else {
            '_'
        };
        out.push(d);
        assert(file_stem(id@.take(i + 1)) =~= file_stem(id@.take(i as int)).push(d));
        i = i + 1;
    }
    assert(id@.take(id@.len() as int) == id@);
    out
}

/// No id leads out of its directory: the name that stands for it has no separator and no dot, and
/// making the name from it again changes nothing.
pub proof fn law_file_stem_is_safe(id: Seq<char>)
    ensures
        forall|i: int|
            0 <= i < file_stem(id).len() ==> {
                let c = #[trigger] file_stem(id)[i];
                c != '/' && c != '\\' && c != '.' && c != '\0' && c != ':'
            },
        file_stem(file_stem(id)) == file_stem(id),
        file_stem(id).len() == id.len(),
{
    assert(file_stem(file_stem(id)) =~= file_stem(id));
}

pub open spec fn session_file(id: Seq<char>) -> Seq<char> {
    file_stem(id) + ".json"@
}

pub open spec fn notes_file(id: Seq<char>) -> Seq<char> {
    file_stem(id) + ".md"@
}

/// The name of the file that holds a session.
pub fn session_file_name(id: &str) -> (r: String)
    ensures
        r@ == session_file(id@),
{
    let mut r = sanitize(id);
    r.append(".json");
    r
}

/// The name of the file that holds a session's notes.
pub fn notes_file_name(id: &str) -> (r: String)
    ensures
        r@ == notes_file(id@),
{
    let mut r = sanitize(id);
    r.append(".md");
    r
}

/// The directory that holds what is kept of a session's hotels.
pub open spec fn hotels_path(id: Seq<char>) -> Seq<char> {
    "hotels/"@ + file_stem(id)
}

/// What is on disk of a session: its file, the directories of its maps and hotels, its notes.
pub struct Traces {
    pub file: String,
    pub maps: String,
    pub hotels: String,
    pub notes: String,
}

impl Session {
    /// What is removed with a session.
    pub fn delete(id: &str) -> (r: Traces)
        ensures
            r.file@ == "sessions/"@ + session_file(id@),
            r.maps@ == "maps/"@ + file_stem(id@),
            r.hotels@ == hotels_path(id@),
            r.notes@ == "sessions/"@ + notes_file(id@),
    {
        let stem = sanitize(id);
        let mut file = text::copy_text("sessions/");
        file.append(session_file_name(id).as_str());
        let mut maps = text::copy_text("maps/");
        maps.append(stem.as_str());
        let mut hotels = text::copy_text("hotels/");
        hotels.append(stem.as_str());
        let mut notes = text::copy_text("sessions/");
        notes.append(notes_file_name(id).as_str());
        Traces { file, maps, hotels, notes }
    }
}

// ---- One session ----

impl Session {
    pub fn new(id: String) -> (s: Session)
        ensures
            s.updated_at is Some,
            s@ == SessionModel::opened(id@, WorkflowMode::Quick, s.updated_at->Some_0),
    {
        Session::new_with_workflow_mode(id, WorkflowMode::Quick)
    }

    pub fn new_with_workflow_mode(id: String, workflow_mode: WorkflowMode) -> (s: Session)
        ensures
            s.updated_at is Some,
            s@ == SessionModel::opened(id@, workflow_mode, s.updated_at->Some_0),
    {
        Session::opened_at(id, workflow_mode, clock::now())
    }

    /// A new session, opened at the given time.
    pub fn opened_at(id: String, workflow_mode: WorkflowMode, at: Timestamp) -> (s: Session)
        ensures
            s@ == SessionModel::opened(id@, workflow_mode, at),
    {
        let mut messages: Vec<Message> = Vec::new();
        let greeting = Message::plain("assistant", text::copy_text(GREETING));
        proof {
            llm::lemma_message_models_push(messages@, greeting);
        }
        messages.push(greeting);
        let s = Session {
            id,
            messages,
            usage: Usage::default(),
            phase: 0,
            workflow_mode,
            quick_mode: QuickMode::Auto,
            updated_at: Some(at),
            name: None,
            owner_user_id: None,
        };
        assert(s@.messages =~= SessionModel::opened(id@, workflow_mode, at).messages);
        s
    }

    /// Whether the file of a session is among the files that its directory holds.
    pub fn is_stored(id: &str, files: &Vec<String>) -> (b: bool)
        ensures
            b == text::views(files@).contains(session_file(id@)),
    {
        let name = session_file_name(id);
        let mut i: usize = 0;
        while i < files.len()
            invariant
                i <= files@.len(),
                name@ == session_file(id@),
                forall|j: int| 0 <= j < i ==> text::views(files@)[j] != session_file(id@),
            decreases files@.len() - i,
        {
            if text::same(files[i].as_str(), name.as_str()) {
                assert(text::views(files@)[i as int] == session_file(id@));
                return true;
            }
            i = i + 1;
        }
        false
    }

    /// Gives the session another name.
    pub fn rename(&mut self, name: String)
        ensures
            final(self)@ == (SessionModel { name: Some(name@), ..old(self)@ }),
    {
        self.name = Some(name);
    }

    /// Makes an account the owner.
    pub fn transfer_owner(&mut self, owner_user_id: i64)
        ensures
            final(self)@ == (SessionModel { owner_user_id: Some(owner_user_id), ..old(self)@ }),
    {
        self.owner_user_id = Some(owner_user_id);
    }

    /// Makes an account the owner if there is none; says whether it did.
    pub fn claim(&mut self, owner_user_id: i64) -> (changed: bool)
        ensures
            final(self)@ == old(self)@.claimed(owner_user_id),
            changed == (old(self)@.owner_user_id is None),
    {
        if self.owner_user_id.is_none() {
            self.owner_user_id = Some(owner_user_id);
            true
        } else {
            false
        }
    }

    /// Keeps the last `max` messages; without a limit, all.
    pub fn trim_messages(&mut self, max: Option<usize>)
        ensures
            final(self)@ == old(self)@.trimmed(max),
    {
        if let Some(max) = max {
            if self.messages.len() > max {
                let start = self.messages.len() - max;
                let tail = self.messages.split_off(start);
                proof {
                    assert(tail@ == old(self).messages@.skip(start as int));
                    assert(llm::message_models(tail@) =~= llm::message_models(
                        old(self).messages@,
                    ).skip(start as int));
                }
                self.messages = tail;
            }
        }
    }
}

// ---- Many sessions ----

/// A line of the list of sessions.
pub struct SessionMeta {
    pub id: String,
    pub messages: usize,
    pub prompt_tokens: u64,
    pub completion_tokens: u64,
    pub total_tokens: u64,
    pub updated_at: Option<Timestamp>,
    pub name: Option<String>,
    pub owner_user_id: Option<i64>,
    pub workflow_mode: WorkflowMode,
    pub quick_mode: QuickMode,
}

/// What a line of the list says.
pub struct SessionMetaModel {
    pub id: Seq<char>,
    pub messages: nat,
    pub usage: Usage,
    pub updated_at: Option<Timestamp>,
    pub name: Option<Seq<char>>,
    pub owner_user_id: Option<i64>,
    pub workflow_mode: WorkflowMode,
    pub quick_mode: QuickMode,
}

impl View for SessionMeta {
    type V = SessionMetaModel;

    open spec fn view(&self) -> SessionMetaModel {
        SessionMetaModel {
            id: self.id@,
            messages: self.messages as nat,
            usage: Usage {
                prompt_tokens: self.prompt_tokens,
                completion_tokens: self.completion_tokens,
                total_tokens: self.total_tokens,
            },
            updated_at: self.updated_at,
            name: llm::opt_text(self.name),
            owner_user_id: self.owner_user_id,
            workflow_mode: self.workflow_mode,
            quick_mode: self.quick_mode,
        }
    }
}

pub open spec fn meta_models(metas: Seq<SessionMeta>) -> Seq<SessionMetaModel> {
    metas.map_values(|m: SessionMeta| m@)
}

/// A session as it was found: the stem of its file's name, and what the file holds.
pub struct StoredSession {
    pub stem: String,
    pub session: Session,
}

impl SessionModel {
    /// The line of the list for a session that was found under a name.
    pub open spec fn meta(self, stem: Seq<char>) -> SessionMetaModel {
        SessionMetaModel {
            id: stem,
            messages: self.messages.len(),
            usage: self.usage,
            updated_at: self.updated_at,
            name: self.name,
            owner_user_id: self.owner_user_id,
            workflow_mode: self.workflow_mode,
            quick_mode: self.quick_mode,
        }
    }
}

/// The lines for all sessions but the command line's, in the order in which they were found.
pub open spec fn listed(stored: Seq<StoredSession>) -> Seq<SessionMetaModel>
    decreases stored.len(),
{
    if stored.len() == 0 {
        Seq::empty()
    } else {
        let before = listed(stored.drop_last());
        let s = stored.last();
        if s.stem@ == "cli"@ {
            before
        } else {
            before.push(s.session@.meta(s.stem@))
        }
    }
}

/// Later times rank higher; a session without a time ranks lowest.
pub open spec fn recency(at: Option<Timestamp>) -> int {
    match at {
        Some(t) => t.rank() + 1,
        None => 0,
    }
}

/// The keys by which the list is sorted: the most recent session has the smallest.
pub open spec fn recency_keys(metas: Seq<SessionMetaModel>) -> Seq<u128> {
    metas.map_values(|m: SessionMetaModel| (u128::MAX - recency(m.updated_at)) as u128)
}

/// Whether `r` holds the lines of `metas`, most recent first, lines of the same time in their
/// order.
pub open spec fn sorted_by_recency(
    metas: Seq<SessionMetaModel>,
    r: Seq<SessionMetaModel>,
) -> bool {
    r == order::ordered(recency_keys(metas)).map_values(|p: usize| metas[p as int])
}

/// Whether no line is more recent than one before it.
pub open spec fn newest_first(metas: Seq<SessionMetaModel>) -> bool {
    forall|i: int, j: int|
        0 <= i < j < metas.len() ==> recency((#[trigger] metas[i]).updated_at) >= recency(
            (#[trigger] metas[j]).updated_at,
        )
}

impl SessionMeta {
    fn copy(&self) -> (r: SessionMeta)
        ensures
            r@ == self@,
    {
        SessionMeta {
            id: text::copy_text(self.id.as_str()),
            messages: self.messages,
            prompt_tokens: self.prompt_tokens,
            completion_tokens: self.completion_tokens,
            total_tokens: self.total_tokens,
            updated_at: self.updated_at,
            name: llm::copy_opt(&self.name),
            owner_user_id: self.owner_user_id,
            workflow_mode: self.workflow_mode,
            quick_mode: self.quick_mode,
        }
    }
}

fn recency_key(at: &Option<Timestamp>) -> (k: u128)
    ensures
        k == u128::MAX - recency(*at),
{
    match at {
        Some(t) => u128::MAX - (t.to_rank() + 1),
        None => u128::MAX,
    }
}

impl Session {
    /// The list of sessions, most recent first, without the command line's.
    pub fn list(stored: &Vec<StoredSession>) -> (r: Vec<SessionMeta>)
        ensures
            sorted_by_recency(listed(stored@), meta_models(r@)),
            newest_first(meta_models(r@)),
    {
        let mut found: Vec<SessionMeta> = Vec::new();
        let mut keys: Vec<u128> = Vec::new();
        let mut i: usize = 0;
        assert(meta_models(found@) =~= listed(stored@.take(0)));
        assert(keys@ =~= recency_keys(listed(stored@.take(0))));
        while i < stored.len()
            invariant
                i <= stored@.len(),
                meta_models(found@) == listed(stored@.take(i as int)),
                keys@ == recency_keys(meta_models(found@)),
            decreases stored@.len() - i,
        {
            let s = &stored[i];
            proof {
                let now = stored@.take(i + 1);
                assert(now.drop_last() == stored@.take(i as int));
                assert(now.last() == *s);
            }
            if !text::same(s.stem.as_str(), "cli") {
                let meta = SessionMeta {
                    id: text::copy_text(s.stem.as_str()),
                    messages: s.session.messages.len(),
                    prompt_tokens: s.session.usage.prompt_tokens,
                    completion_tokens: s.session.usage.completion_tokens,
                    total_tokens: s.session.usage.total_tokens,
                    updated_at: s.session.updated_at,
                    name: llm::copy_opt(&s.session.name),
                    owner_user_id: s.session.owner_user_id,
                    workflow_mode: s.session.workflow_mode,
                    quick_mode: s.session.quick_mode,
                };
                let key = recency_key(&meta.updated_at);
                let ghost before = meta_models(found@);
                assert(meta@ == s.session@.meta(s.stem@));
                found.push(meta);
                keys.push(key);
                assert(meta_models(found@) =~= before.push(meta@));
                assert(keys@ =~= recency_keys(meta_models(found@)));
            }
            i = i + 1;
        }
        assert(stored@.take(stored@.len() as int) == stored@);
        let order = order::stable_order(&keys);
        let ghost metas = meta_models(found@);
        let ghost target = order@.map_values(|p: usize| metas[p as int]);
        let mut r: Vec<SessionMeta> = Vec::new();
        let mut j: usize = 0;
        while j < order.len()
            invariant
                j <= order@.len(),
                metas == meta_models(found@),
                keys@ == recency_keys(metas),
                order::is_stable_order(keys@, order@),
                target == order@.map_values(|p: usize| metas[p as int]),
                meta_models(r@) =~= target.take(j as int),
            decreases order@.len() - j,
        {
            let m = found[order[j]].copy();
            let ghost before = meta_models(r@);
            r.push(m);
            proof {
                assert(meta_models(r@) =~= before.push(m@));
                assert(m@ == metas[order@[j as int] as int]);
                assert(target.take(j + 1) =~= target.take(j as int).push(target[j as int]));
            }
            j = j + 1;
        }
        proof {
            assert(target.take(target.len() as int) =~= target);
            assert(meta_models(r@) == order@.map_values(|p: usize| metas[p as int]));
            let rm = meta_models(r@);
            assert forall|a: int, b: int| 0 <= a < b < rm.len() implies recency(
                (#[trigger] rm[a]).updated_at,
            ) >= recency((#[trigger] rm[b]).updated_at) by {
                assert(order::precedes(keys@, order@[a] as int, order@[b] as int));
                assert(rm[a] == metas[order@[a] as int]);
                assert(rm[b] == metas[order@[b] as int]);
            }
        }
        r
    }

    /// The ids of the sessions that go when only the first `keep` of the list stay; without a
    /// limit, none.
    pub fn prune(metas: &Vec<SessionMeta>, keep: Option<usize>) -> (r: Vec<String>)
        ensures
            text::views(r@) == pruned_ids(meta_models(metas@), keep),
    {
        let mut r: Vec<String> = Vec::new();
        let start = match keep {
            Some(n) => if n <= metas.len() {
                n
            } else {
                metas.len()
            },
            None => metas.len(),
        };
        let ghost ids = pruned_ids(meta_models(metas@), keep);
        let mut i: usize = start;
        while i < metas.len()
            invariant
                start <= i <= metas@.len(),
                start == metas@.len() || Some(start) == keep,
                ids == pruned_ids(meta_models(metas@), keep),
                text::views(r@) =~= ids.take(i - start),
                i < metas@.len() ==> ids.len() == metas@.len() - start,
            decreases metas@.len() - i,
        {
            let id = text::copy_text(metas[i].id.as_str());
            proof {
                text::lemma_views_push(r@, id);
                assert(ids[i - start] == id@);
                assert(ids.take(i + 1 - start) =~= ids.take(i - start).push(id@));
            }
            r.push(id);
            i = i + 1;
        }
        assert(text::views(r@) =~= ids);
        r
    }

    /// Trims the messages of every session.
    pub fn trim_all(sessions: &mut Vec<Session>, max: Option<usize>)
        ensures
            session_models(final(sessions)@) == session_models(old(sessions)@).map_values(
                |s: SessionModel| s.trimmed(max),
            ),
    {
        let ghost start = sessions@;
        let mut i: usize = 0;
        while i < sessions.len()
            invariant
                i <= sessions@.len() == start.len(),
                forall|j: int| 0 <= j < i ==> (#[trigger] sessions@[j])@ == start[j]@.trimmed(max),
                forall|j: int| i <= j < start.len() ==> #[trigger] sessions@[j] == start[j],
            decreases start.len() - i,
        {
            sessions[i].trim_messages(max);
            i = i + 1;
        }
        assert(session_models(sessions@) =~= session_models(start).map_values(
            |s: SessionModel| s.trimmed(max),
        ));
    }

    /// Makes an account the owner of every session that has none; says of how many.
    pub fn assign_unowned_to(sessions: &mut Vec<Session>, owner_user_id: i64) -> (count: usize)
        ensures
            session_models(final(sessions)@) == session_models(old(sessions)@).map_values(
                |s: SessionModel| s.claimed(owner_user_id),
            ),
            count == unowned(session_models(old(sessions)@)),
    {
        let ghost start = sessions@;
        let ghost models = session_models(start);
        let mut count: usize = 0;
        let mut i: usize = 0;
        while i < sessions.len()
            invariant
                i <= sessions@.len() == start.len(),
                models == session_models(start),
                count <= i,
                count == unowned(models.take(i as int)),
                forall|j: int|
                    0 <= j < i ==> (#[trigger] sessions@[j])@ == start[j]@.claimed(owner_user_id),
                forall|j: int| i <= j < start.len() ==> #[trigger] sessions@[j] == start[j],
            decreases start.len() - i,
        {
            let changed = sessions[i].claim(owner_user_id);
            proof {
                let now = models.take(i + 1);
                assert(now.drop_last() == models.take(i as int));
                assert(now.last() == start[i as int]@);
            }
            if changed {
                count = count + 1;
            }
            i = i + 1;
        }
        assert(models.take(models.len() as int) == models);
        assert(session_models(sessions@) =~= models.map_values(
            |s: SessionModel| s.claimed(owner_user_id),
        ));
        count
    }
}

/// How many sessions have no owner.
pub open spec fn unowned(sessions: Seq<SessionModel>) -> nat
    decreases sessions.len(),
{
    if sessions.len() == 0 {
        0
    } else {
        unowned(sessions.drop_last()) + (if sessions.last().owner_user_id is None {
            1nat
        } else {
            0nat
        })
    }
}

/// The ids beyond the first `keep` lines.
pub open spec fn pruned_ids(metas: Seq<SessionMetaModel>, keep: Option<usize>) -> Seq<Seq<char>> {
    match keep {
        Some(n) => if n <= metas.len() {
            metas.skip(n as int).map_values(|m: SessionMetaModel| m.id)
        } else {
            Seq::empty()
        },
        None => Seq::empty(),
    }
}

/// Of a list with the newest first, pruning takes the last lines and so the oldest: every line
/// that goes is at least as old as every line that stays, and `keep` lines stay where there are
/// so many.
pub proof fn law_pruning_takes_the_oldest(metas: Seq<SessionMetaModel>, keep: usize)
    requires
        newest_first(metas),
    ensures
        pruned_ids(metas, Some(keep)).len() == (if metas.len() >= keep {
            metas.len() - keep
        } else {
            0
        }),
        forall|i: int, j: int|
            0 <= i < keep && 0 <= j < pruned_ids(metas, Some(keep)).len() ==> (
            #[trigger] pruned_ids(metas, Some(keep))[j]) == metas[keep + j].id && recency(
                (#[trigger] metas[i]).updated_at,
            ) >= recency(metas[keep + j].updated_at),
{
}

/// A session that has an owner keeps it when unowned sessions are assigned, and afterwards none is
/// without one.
pub proof fn law_owner_is_never_overwritten(s: SessionModel, owner: i64)
    ensures
        s.owner_user_id is Some ==> s.claimed(owner) == s,
        s.claimed(owner).owner_user_id is Some,
        s.claimed(owner).messages == s.messages,
        s.claimed(owner).id == s.id,
{
}

/// Trimming keeps the most recent messages, as many as are allowed, and changes nothing else;
/// doing it again changes nothing.
pub proof fn law_trimming_keeps_the_last(s: SessionModel, max: usize)
    ensures
        s.trimmed(Some(max)).messages.len() <= max,
        forall|k: int|
            0 <= k < s.trimmed(Some(max)).messages.len() ==> #[trigger] s.trimmed(
                Some(max),
            ).messages[k] == s.messages[s.messages.len() - s.trimmed(Some(max)).messages.len() + k],
        s.messages.len() >= max ==> s.trimmed(Some(max)).messages.len() == max,
        s.trimmed(Some(max)).trimmed(Some(max)) == s.trimmed(Some(max)),
        (SessionModel { messages: s.messages, ..s.trimmed(Some(max)) }) == s,
{
}

// ---- Reading files with trailing commas ----

/// Whether a position of a JSON text lies in a string, and whether it is escaped there.
pub open spec fn string_state(s: Seq<char>, i: int) -> (bool, bool)
    decreases i,
{
    if i <= 0 || i > s.len() {
        (false, false)
    } else {
        let (inside, escaped) = string_state(s, i - 1);
        let c = s[i - 1];
        if inside {
            if escaped {
                (true, false)
            } else if c == '\\' {
                (true, true)
            } else {
                (c != '"', false)
            }
        } else {
            (c == '"', false)
        }
    }
}

/// Whether, white space aside, a closing bracket stands at a position.
pub open spec fn closes(s: Seq<char>, i: int) -> bool
    decreases s.len() - i,
{
    if i < 0 || i >= s.len() {
        false
    } else if text::is_white(s[i]) {
        closes(s, i + 1)
    } else {
        s[i] == '}' || s[i] == ']'
    }
}

/// Whether the character at a position is a comma outside strings with nothing but white space
/// between it and a closing bracket.
pub open spec fn is_trailing_comma(s: Seq<char>, i: int) -> bool {
    !string_state(s, i).0 && s[i] == ',' && closes(s, i + 1)
}

/// The first `n` characters without trailing commas.
pub open spec fn without_trailing_commas(s: Seq<char>, n: int) -> Seq<char>
    decreases n,
{
    if n <= 0 {
        Seq::empty()
    } else if is_trailing_comma(s, n - 1) {
        without_trailing_commas(s, n - 1)
    } else {
        without_trailing_commas(s, n - 1).push(s[n - 1])
    }
}

pub fn strip_trailing_commas(json: &str) -> (r: String)
    ensures
        r@ == without_trailing_commas(json@, json@.len() as int),
{
    let v = text::chars_of(json);
    let mut out = String::new();
    let mut in_string: bool = false;
    let mut escaped: bool = false;
    let mut i: usize = 0;
    while i < v.len()
        invariant
            v@ == json@,
            i <= v@.len(),
            string_state(json@, i as int) == (in_string, escaped),
            out@ == without_trailing_commas(json@, i as int),
        decreases v@.len() - i,
    {
        let c = v[i];
        if in_string {
            out.push(c);
            if escaped {
                escaped = false;
            } else if c == '\\' {
                escaped = true;
            } else if c == '"' {
                in_string = false;
            }
        } else if c == '"' {
            in_string = true;
            out.push(c);
        } else {
            let mut drop: bool = false;
            if c == ',' {
                let mut next: usize = i + 1;
                while next < v.len() && text::is_whitespace(v[next])
                    invariant
                        v@ == json@,
                        i < next <= v@.len(),
                        closes(json@, i + 1) == closes(json@, next as int),
                    decreases v@.len() - next,
                {
                    next = next + 1;
                }
                drop = next < v.len() && (v[next] == '}' || v[next] == ']');
            }
            if !drop {
                out.push(c);
            }
        }
        i = i + 1;
    }
    out
}

/// A text without trailing commas is left as it is, and what stands in strings always stays.
pub proof fn law_only_trailing_commas_go(s: Seq<char>, n: int)
    requires
        0 <= n <= s.len(),
    ensures
        (forall|i: int| 0 <= i < n ==> !is_trailing_comma(s, i)) ==> without_trailing_commas(s, n)
            == s.take(n),
        without_trailing_commas(s, n).len() <= n,
        forall|i: int|
            0 <= i < n && #[trigger] string_state(s, i).0 ==> !is_trailing_comma(s, i),
    decreases n,
{
    if n > 0 {
        law_only_trailing_commas_go(s, n - 1);
        assert(s.take(n) =~= s.take(n - 1).push(s[n - 1]));
    } else {
        assert(s.take(0) =~= Seq::<char>::empty());
    }
}

// ---- What sessions are, where they stand and how they are listed ----

/// A new session holds the greeting and nothing else, at the first stage, owned by nobody.
pub proof fn law_sessions_begin_with_the_greeting(id: Seq<char>, mode: WorkflowMode, at: Timestamp)
    ensures
        ({
            let s = SessionModel::opened(id, mode, at);
            &&& s.id == id
            &&& s.workflow_mode == mode
            &&& s.updated_at == Some(at)
            &&& s.messages.len() == 1
            &&& s.messages[0].role == "assistant"@
            &&& s.messages[0].content == Some(
                "嗨～我是拾光者 🎒 你的专属旅游搭子！\n快捷模式：可以快速完成目的地种草、已有地点排程、地图、小红书总结、携程候选酒店核验等一次性任务。\n完整攻略：会从需求、路线、景点、住宿和交通开始，分阶段整理成最终攻略。\n个人知识库目前尚未启用。你想去哪儿玩，或者先把已有地点发给我？"@,
            )
            &&& s.messages[0].tool_calls is None
            &&& s.usage.prompt_tokens == 0 && s.usage.completion_tokens == 0 && s.usage.total_tokens
                == 0
            &&& s.phase == 0
            &&& s.quick_mode == QuickMode::Auto
            &&& s.name is None
            &&& s.owner_user_id is None
        }),
{
}

/// A session without an owner goes to whoever claims it, and stays as it is otherwise.
pub proof fn law_claims_give_an_owner(s: SessionModel, owner: i64)
    ensures
        s.owner_user_id is None ==> s.claimed(owner) == (SessionModel {
            owner_user_id: Some(owner),
            ..s
        }),
        s.owner_user_id matches Some(o) ==> s.claimed(owner).owner_user_id == Some(o),
{
}

/// A session's files are called by its identifier, in which letters, digits, `-` and `_` stay and every
/// other sign of ASCII becomes `_`.
pub proof fn law_files_are_called_by_their_session(id: Seq<char>, i: int)
    requires
        0 <= i < id.len(),
    ensures
        file_stem(id).len() == id.len(),
        'a' <= id[i] <= 'z' || 'A' <= id[i] <= 'Z' || '0' <= id[i] <= '9' || id[i] == '-' || id[i]
            == '_' ==> file_stem(id)[i] == id[i],
        (id[i] as u32) < 128 && !('a' <= id[i] <= 'z' || 'A' <= id[i] <= 'Z' || '0' <= id[i] <= '9'
            || id[i] == '-') ==> file_stem(id)[i] == '_',
        file_stem(id)[i] == id[i] || file_stem(id)[i] == '_',
        session_file(id) == file_stem(id) + ".json"@,
        notes_file(id) == file_stem(id) + ".md"@,
        hotels_path(id) == "hotels/"@ + file_stem(id),
{
}

/// A list of sessions tells of each, in order, what it is; the session of the command line is left
/// out.
pub proof fn law_sessions_are_listed(stored: Seq<StoredSession>, s: StoredSession)
    ensures
        listed(Seq::empty()).len() == 0,
        s.stem@ == "cli"@ ==> listed(stored.push(s)) == listed(stored),
        s.stem@ != "cli"@ ==> listed(stored.push(s)).drop_last() == listed(stored) && ({
            let m = listed(stored.push(s)).last();
            &&& listed(stored.push(s)).len() == listed(stored).len() + 1
            &&& m.id == s.stem@
            &&& m.messages == s.session@.messages.len()
            &&& m.usage == s.session@.usage
            &&& m.updated_at == s.session@.updated_at
            &&& m.name == s.session@.name
            &&& m.owner_user_id == s.session@.owner_user_id
            &&& m.workflow_mode == s.session@.workflow_mode
            &&& m.quick_mode == s.session@.quick_mode
        }),
{
    assert(stored.push(s).drop_last() =~= stored);
    if s.stem@ != "cli"@ {
        assert(listed(stored.push(s)).drop_last() =~= listed(stored));
    }
}

/// Of two sessions the one that changed later is the more recent, and one whose time is not known is
/// the least recent.
pub proof fn law_later_sessions_are_more_recent(a: Timestamp, b: Timestamp)
    ensures
        recency(None) < recency(Some(a)),
        recency(Some(a)) < recency(Some(b)) <==> a.secs < b.secs || (a.secs == b.secs && a.nanos
            < b.nanos),
{
    clock::law_later_times_rank_higher(a, b);
}

/// Sorting puts more recent sessions first, keeps those of one time as they stood, and keeps all of
/// them.
pub proof fn law_sorting_puts_the_recent_first(
    metas: Seq<SessionMetaModel>,
    r: Seq<SessionMetaModel>,
    k: int,
)
    requires
        metas.len() <= usize::MAX,
        sorted_by_recency(metas, r),
        0 <= k < metas.len(),
    ensures
        r.len() == metas.len(),
        newest_first(r),
        r.contains(metas[k]),
{
    let keys = recency_keys(metas);
    let o = order::ordered(keys);
    order::lemma_ordered(keys);
    assert forall|i: int, j: int| 0 <= i < j < r.len() implies recency(
        (#[trigger] r[i]).updated_at,
    ) >= recency((#[trigger] r[j]).updated_at) by {
        assert(order::precedes(keys, o[i] as int, o[j] as int));
        lemma_recency_fits(metas[o[i] as int].updated_at);
        lemma_recency_fits(metas[o[j] as int].updated_at);
    }
    order::lemma_stable_order_is_total(keys, o, k);
    let i = choose|i: int| 0 <= i < o.len() && #[trigger] o[i] == k;
    assert(r[i] == metas[k]);
}

proof fn lemma_recency_fits(at: Option<Timestamp>)
    ensures
        0 <= recency(at) <= u128::MAX,
{
    match at {
        Some(t) => {
            assert(t.secs * 0x1_0000_0000 <= 0xFFFF_FFFF_FFFF_FFFF * 0x1_0000_0000);
        },
        None => {},
    }
}

/// The sessions without an owner are counted one by one.
pub proof fn law_unowned_sessions_are_counted(sessions: Seq<SessionModel>, s: SessionModel)
    ensures
        unowned(Seq::empty()) == 0,
        s.owner_user_id is None ==> unowned(sessions.push(s)) == unowned(sessions) + 1,
        s.owner_user_id is Some ==> unowned(sessions.push(s)) == unowned(sessions),
{
    assert(sessions.push(s).drop_last() =~= sessions);
}

// ---- Strings and trailing commas ----

proof fn lemma_state_of_front(s: Seq<char>, t: Seq<char>, i: int)
    requires
        0 <= i <= s.len(),
    ensures
        string_state(s + t, i) == string_state(s, i),
    decreases i,
{
    if i > 0 {
        lemma_state_of_front(s, t, i - 1);
    }
}

/// A quotation mark outside a string opens one. Inside, a quotation mark closes it, a backslash takes
/// the next sign for itself, whatever it is, and every other sign leaves it open.
pub proof fn law_strings_open_and_close(s: Seq<char>, c: char, d: char)
    ensures
        ({
            let n = s.len() as int;
            let (inside, escaped) = string_state(s, n);
            let next = string_state(s.push(c), n + 1);
            let after = string_state(s.push(c).push(d), n + 2);
            &&& string_state(s, 0) == (false, false)
            &&& !inside ==> (next.0 <==> c == '"') && !next.1
            &&& inside && !escaped && c != '\\' ==> (next.0 <==> c != '"') && !next.1
            &&& inside && !escaped && c == '\\' ==> next.0 && after.0 && !after.1
        }),
{
    let n = s.len() as int;
    assert(s.push(c) =~= s + seq![c]);
    assert(s.push(c).push(d) =~= s.push(c) + seq![d]);
    lemma_state_of_front(s, seq![c], n);
    lemma_state_of_front(s.push(c), seq![d], n + 1);
    assert(s.push(c)[n] == c);
    assert(s.push(c).push(d)[n + 1] == d);
}

proof fn lemma_closes(s: Seq<char>, i: int, j: int)
    requires
        0 <= i <= j < s.len(),
        forall|k: int| i <= k < j ==> text::is_white(#[trigger] s[k]),
        !text::is_white(s[j]),
    ensures
        closes(s, i) <==> s[j] == '}' || s[j] == ']',
    decreases j - i,
{
    if i < j {
        assert(text::is_white(s[i]));
        lemma_closes(s, i + 1, j);
    }
}

/// A comma outside a string is one too many exactly where the next sign, white space aside, closes
/// something; a comma in a string never is.
pub proof fn law_commas_before_a_close_are_too_many(s: Seq<char>, i: int, j: int)
    requires
        0 <= i < j < s.len(),
        forall|k: int| i < k < j ==> text::is_white(#[trigger] s[k]),
        !text::is_white(s[j]),
    ensures
        is_trailing_comma(s, i) <==> s[i] == ',' && !string_state(s, i).0 && (s[j] == '}' || s[j]
            == ']'),
{
    lemma_closes(s, i + 1, j);
}

/// Signs go or stay one by one: those too many go, all others stay in order.
pub proof fn law_other_signs_stay(s: Seq<char>, n: int)
    requires
        0 <= n < s.len(),
    ensures
        without_trailing_commas(s, 0).len() == 0,
        s[n] != ',' ==> without_trailing_commas(s, n + 1) == without_trailing_commas(s, n).push(s[n]),
        is_trailing_comma(s, n) ==> without_trailing_commas(s, n + 1) == without_trailing_commas(s, n),
        !is_trailing_comma(s, n) ==> without_trailing_commas(s, n + 1) == without_trailing_commas(
            s,
            n,
        ).push(s[n]),
{
}

} // verus!
