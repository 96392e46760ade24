//! The conversation log: an append-only store of role-tagged, timestamped
//! messages with recency queries, substring search, statistics and
//! prompt-context formatting. Durability is a caller's concern; the log's
//! semantics are fully specified here.

use vstd::prelude::*;

use crate::strutil::{chars_of, contains_spec, contains_sub, push_char, to_lower, to_lower_spec};

verus! {

#[derive(Debug, Clone, Copy, PartialEq, Eq, Structural)]
pub enum MessageRole {
    User,
    Assistant,
    System,
}

/// The lowercase tag a role is stored and printed under.
pub open spec fn role_name_spec(r: MessageRole) -> Seq<char> {
    match r {
        MessageRole::User => "user"@,
        MessageRole::Assistant => "assistant"@,
        MessageRole::System => "system"@,
    }
}

impl MessageRole {
    /// The role's lowercase tag.
    pub fn role_name(&self) -> (r: String)
        ensures
            r@ == role_name_spec(*self),
    {
        match self {
            MessageRole::User => String::from_str("user"),
            MessageRole::Assistant => String::from_str("assistant"),
            MessageRole::System => String::from_str("system"),
        }
    }

    /// The role whose tag is `s`, compared after ASCII lowercasing.
    pub fn parse_role(s: &str) -> (r: Result<MessageRole, String>)
        ensures
            to_lower_spec(s@) == "user"@ ==> r == Ok::<MessageRole, String>(MessageRole::User),
            to_lower_spec(s@) == "assistant"@ ==> r == Ok::<MessageRole, String>(
                MessageRole::Assistant,
            ),
            to_lower_spec(s@) == "system"@ ==> r == Ok::<MessageRole, String>(MessageRole::System),
            to_lower_spec(s@) != "user"@ && to_lower_spec(s@) != "assistant"@ && to_lower_spec(s@)
                != "system"@ ==> r is Err,
    {
        proof {
            reveal_strlit("user");
            reveal_strlit("assistant");
            reveal_strlit("system");
            assert("user"@.len() == 4);
            assert("assistant"@.len() == 9);
            assert("system"@.len() == 6);
        }
        let cs = chars_of(s);
        let low = to_lower(&cs);
        let user = chars_of("user");
        let assistant = chars_of("assistant");
        let system = chars_of("system");
        if crate::strutil::seq_eq(&low, &user) {
            Ok(MessageRole::User)
        } else if crate::strutil::seq_eq(&low, &assistant) {
            Ok(MessageRole::Assistant)
        } else if crate::strutil::seq_eq(&low, &system) {
            Ok(MessageRole::System)
        } else {
            let mut e = String::from_str("Invalid message role: ");
            e.append(s);
            Err(e)
        }
    }
}

#[derive(Debug, Clone)]
pub struct ConversationMessage {
    pub id: i64,
    pub timestamp_millis: i64,
    pub role: MessageRole,
    pub content: String,
}

/// Ghost image of a logged message.
pub ghost struct MsgView {
    pub id: int,
    pub timestamp_millis: int,
    pub role: MessageRole,
    pub content: Seq<char>,
}

pub open spec fn msg_view(m: ConversationMessage) -> MsgView {
    MsgView {
        id: m.id as int,
        timestamp_millis: m.timestamp_millis as int,
        role: m.role,
        content: m.content@,
    }
}

/// Statistics over the whole log.
#[derive(Debug, Clone)]
pub struct MemoryStats {
    pub total_messages: usize,
    pub user_messages: usize,
    pub assistant_messages: usize,
    pub first_message: Option<i64>,
    pub last_message: Option<i64>,
}

pub struct MemoryManager {
    messages: Vec<ConversationMessage>,
    next_id: i64,
}

/// A fresh message equal to the given one.
fn copy_msg(m: &ConversationMessage) -> (r: ConversationMessage)
    ensures
        msg_view(r) == msg_view(*m),
{
    ConversationMessage {
        id: m.id,
        timestamp_millis: m.timestamp_millis,
        role: m.role,
        content: m.content.clone(),
    }
}

/// Relies on chrono::Utc::now (timestamp_millis): the current wall-clock
/// time; nothing is assumed of the value.
#[verifier::external_body]
fn now_millis() -> i64 {
    chrono::Utc::now().timestamp_millis()
}

/// The last `min(k, n)` entries, oldest first.
pub open spec fn recent_spec(log: Seq<MsgView>, k: int) -> Seq<MsgView> {
    if k >= log.len() {
        log
    } else {
        log.skip(log.len() - k)
    }
}

/// The entries whose content holds `q`, most recent first, at most `k` of
/// them, scanning backwards from position `i`.
pub open spec fn search_back(log: Seq<MsgView>, q: Seq<char>, i: int, k: int) -> Seq<MsgView>
    decreases i,
{
    if i <= 0 || k <= 0 {
        Seq::empty()
    } else if contains_spec(log[i - 1].content, q) {
        seq![log[i - 1]] + search_back(log, q, i - 1, k - 1)
    } else {
        search_back(log, q, i - 1, k)
    }
}

pub open spec fn search_spec(log: Seq<MsgView>, q: Seq<char>, k: int) -> Seq<MsgView> {
    search_back(log, q, log.len() as int, k)
}

/// The entries whose timestamp lies in `[start, end]`, oldest first.
pub open spec fn range_spec(log: Seq<MsgView>, start: int, end: int) -> Seq<MsgView>
    decreases log.len(),
{
    if log.len() == 0 {
        Seq::empty()
    } else {
        let rest = range_spec(log.drop_last(), start, end);
        if start <= log.last().timestamp_millis <= end {
            rest.push(log.last())
        } else {
            rest
        }
    }
}

/// How many entries carry the given role.
pub open spec fn count_role(log: Seq<MsgView>, role: MessageRole) -> int
    decreases log.len(),
{
    if log.len() == 0 {
        0
    } else {
        count_role(log.drop_last(), role) + if log.last().role == role {
            1int
        } else {
            0int
        }
    }
}

/// The smallest (or largest, for `max`) timestamp in the log.
pub open spec fn min_ts(log: Seq<MsgView>) -> int
    decreases log.len(),
{
    if log.len() <= 1 {
        if log.len() == 0 {
            0
        } else {
            log[0].timestamp_millis
        }
    } else {
        let rest = min_ts(log.drop_last());
        if log.last().timestamp_millis < rest {
            log.last().timestamp_millis
        } else {
            rest
        }
    }
}

pub open spec fn max_ts(log: Seq<MsgView>) -> int
    decreases log.len(),
{
    if log.len() <= 1 {
        if log.len() == 0 {
            0
        } else {
            log[0].timestamp_millis
        }
    } else {
        let rest = max_ts(log.drop_last());
        if log.last().timestamp_millis > rest {
            log.last().timestamp_millis
        } else {
            rest
        }
    }
}

impl MemoryManager {
    /// The log's entries, oldest first.
    pub closed spec fn log(&self) -> Seq<MsgView> {
        self.messages@.map_values(|m: ConversationMessage| msg_view(m))
    }

    /// Entries carry ids 1, 2, ... in insertion order, and the next id is
    /// ready to be assigned.
    pub closed spec fn wf(&self) -> bool {
        &&& self.next_id == self.log().len() + 1
        &&& forall|i: int| 0 <= i < self.log().len() ==> (#[trigger] self.log()[i].id) == i + 1
    }

    /// A fresh, empty log held only in memory.
    pub fn new_in_memory() -> (r: Result<Self, String>)
        ensures
            r matches Ok(m) && m.wf() && m.log() == Seq::<MsgView>::empty(),
    {
        let m = MemoryManager { messages: Vec::new(), next_id: 1 };
        proof {
            assert(m.log() =~= Seq::<MsgView>::empty());
        }
        Ok(m)
    }

    /// The number of logged messages.
    pub fn message_count(&self) -> (r: usize)
        ensures
            r == self.log().len(),
    {
        self.messages.len()
    }

    /// Appends one message, stamped with the wall clock, under the next id;
    /// fails only when the id space is exhausted.
    pub fn add_message(&mut self, role: MessageRole, content: &str) -> (r: Result<i64, String>)
        requires
            old(self).wf(),
        ensures
            final (self).wf(),
            match r {
                Ok(id) => {
                    &&& id == old(self).log().len() + 1
                    &&& final (self).log().len() == old(self).log().len() + 1
                    &&& final (self).log().subrange(0, old(self).log().len() as int) == old(
                        self,
                    ).log()
                    &&& final (self).log().last().id == id
                    &&& final (self).log().last().role == role
                    &&& final (self).log().last().content == content@
                },
                Err(_) => final (self).log() == old(self).log() && old(self).log().len() + 2
                    > i64::MAX,
            },
    {
        let id = self.next_id;
        let next = match self.next_id.checked_add(1) {
            Some(v) => v,
            None => {
                return Err(String::from_str("conversation log id space exhausted"));
            },
        };
        let ts = now_millis();
        let msg = ConversationMessage {
            id,
            timestamp_millis: ts,
            role,
            content: String::from_str(content),
        };
        let ghost oldlog = self.log();
        self.messages.push(msg);
        self.next_id = next;
        proof {
            assert(self.log() =~= oldlog.push(msg_view(msg)));
            assert(self.log().subrange(0, oldlog.len() as int) =~= oldlog);
        }
        Ok(id)
    }

    /// The most recent `limit` messages, oldest first.
    pub fn get_recent_history(&self, limit: usize) -> (r: Result<Vec<ConversationMessage>, String>)
        requires
            self.wf(),
        ensures
            r matches Ok(v) && v@.map_values(|m: ConversationMessage| msg_view(m)) == recent_spec(
                self.log(),
                limit as int,
            ),
    {
        let n = self.messages.len();
        let lo = if limit >= n {
            0
        } else {
            n - limit
        };
        let mut out: Vec<ConversationMessage> = Vec::new();
        let mut i: usize = lo;
        proof {
            assert(out@.map_values(|m: ConversationMessage| msg_view(m)) =~= self.log().subrange(
                lo as int,
                lo as int,
            ));
        }
        while i < n
            invariant
                lo <= i <= n,
                n == self.messages@.len(),
                n == self.log().len(),
                out@.map_values(|m: ConversationMessage| msg_view(m)) == self.log().subrange(
                    lo as int,
                    i as int,
                ),
            decreases n - i,
        {
            let ghost prev = out@.map_values(|m: ConversationMessage| msg_view(m));
            let m = copy_msg(&self.messages[i]);
            proof {
                assert(msg_view(self.messages@[i as int]) == self.log()[i as int]);
            }
            out.push(m);
            proof {
                assert(msg_view(m) == self.log()[i as int]);
                assert(out@.map_values(|m: ConversationMessage| msg_view(m)) =~= prev.push(
                    self.log()[i as int],
                ));
                assert(prev.push(self.log()[i as int]) =~= self.log().subrange(
                    lo as int,
                    i + 1 as int,
                ));
            }
            i += 1;
        }
        proof {
            if limit >= n {
                assert(self.log().subrange(0, n as int) =~= self.log());
            } else {
                assert(self.log().subrange(lo as int, n as int) =~= self.log().skip(lo as int));
            }
        }
        Ok(out)
    }
}

} // verus!

verus! {

proof fn lemma_count_role_bound(log: Seq<MsgView>, role: MessageRole)
    ensures
        0 <= count_role(log, role) <= log.len(),
    decreases log.len(),
{
    if log.len() > 0 {
        lemma_count_role_bound(log.drop_last(), role);
    }
}

/// What one logged message contributes to the prompt context.
pub open spec fn format_messages(ms: Seq<MsgView>) -> Seq<char>
    decreases ms.len(),
{
    if ms.len() == 0 {
        Seq::empty()
    } else {
        format_messages(ms.drop_last()) + role_name_spec(ms.last().role) + ": "@ + ms.last().content
            + seq!['\n']
    }
}

/// The prompt-context block built from the most recent `k` messages.
pub open spec fn format_context_spec(log: Seq<MsgView>, k: int) -> Seq<char> {
    let ms = recent_spec(log, k);
    if ms.len() == 0 {
        "No previous conversation history."@
    } else {
        "Previous conversation:\n"@ + format_messages(ms)
    }
}

impl MemoryManager {
    /// The messages whose content holds `query`, most recent first, at most
    /// `limit` of them.
    pub fn search_messages(&self, query: &str, limit: usize) -> (r: Result<
        Vec<ConversationMessage>,
        String,
    >)
        ensures
            r matches Ok(v) && v@.map_values(|m: ConversationMessage| msg_view(m)) == search_spec(
                self.log(),
                query@,
                limit as int,
            ),
    {
        let q = chars_of(query);
        let n = self.messages.len();
        let mut out: Vec<ConversationMessage> = Vec::new();
        let mut i: usize = n;
        let mut rem: usize = limit;
        proof {
            assert(out@.map_values(|m: ConversationMessage| msg_view(m)) =~= Seq::<
                MsgView,
            >::empty());
        }
        while i > 0 && rem > 0
            invariant
                0 <= i <= n,
                n == self.messages@.len(),
                n == self.log().len(),
                q@ == query@,
                search_spec(self.log(), query@, limit as int) == out@.map_values(
                    |m: ConversationMessage| msg_view(m),
                ) + search_back(self.log(), query@, i as int, rem as int),
            decreases i,
        {
            let ghost prev = out@.map_values(|m: ConversationMessage| msg_view(m));
            let content = chars_of(self.messages[i - 1].content.as_str());
            proof {
                assert(content@ == self.log()[i - 1].content);
            }
            if contains_sub(&content, &q) {
                let m = copy_msg(&self.messages[i - 1]);
                proof {
                    assert(msg_view(self.messages@[i - 1]) == self.log()[i - 1]);
                }
                out.push(m);
                proof {
                    assert(out@.map_values(|m: ConversationMessage| msg_view(m)) =~= prev.push(
                        self.log()[i - 1],
                    ));
                    assert(prev.push(self.log()[i - 1]) =~= prev + seq![self.log()[i - 1]]);
                    assert((prev + seq![self.log()[i - 1]]) + search_back(
                        self.log(),
                        query@,
                        i - 1,
                        rem - 1,
                    ) =~= prev + (seq![self.log()[i - 1]] + search_back(
                        self.log(),
                        query@,
                        i - 1,
                        rem - 1,
                    )));
                }
                rem -= 1;
            }
            i -= 1;
        }
        proof {
            assert(search_back(self.log(), query@, i as int, rem as int) =~= Seq::<
                MsgView,
            >::empty());
        }
        Ok(out)
    }

    /// The messages whose timestamp lies in `[start_millis, end_millis]`,
    /// oldest first.
    pub fn get_history_by_time_range(&self, start_millis: i64, end_millis: i64) -> (r: Result<
        Vec<ConversationMessage>,
        String,
    >)
        ensures
            r matches Ok(v) && v@.map_values(|m: ConversationMessage| msg_view(m)) == range_spec(
                self.log(),
                start_millis as int,
                end_millis as int,
            ),
    {
        let n = self.messages.len();
        let mut out: Vec<ConversationMessage> = Vec::new();
        let mut i: usize = 0;
        proof {
            assert(self.log().take(0) =~= Seq::<MsgView>::empty());
            assert(out@.map_values(|m: ConversationMessage| msg_view(m)) =~= range_spec(
                self.log().take(0),
                start_millis as int,
                end_millis as int,
            ));
        }
        while i < n
            invariant
                0 <= i <= n,
                n == self.messages@.len(),
                n == self.log().len(),
                out@.map_values(|m: ConversationMessage| msg_view(m)) == range_spec(
                    self.log().take(i as int),
                    start_millis as int,
                    end_millis as int,
                ),
            decreases n - i,
        {
            let ghost prev = out@.map_values(|m: ConversationMessage| msg_view(m));
            proof {
                assert(self.log().take(i + 1 as int).drop_last() =~= self.log().take(i as int));
                assert(self.log().take(i + 1 as int).last() == self.log()[i as int]);
                assert(msg_view(self.messages@[i as int]) == self.log()[i as int]);
            }
            let ts = self.messages[i].timestamp_millis;
            if start_millis <= ts && ts <= end_millis {
                let m = copy_msg(&self.messages[i]);
                out.push(m);
                proof {
                    assert(out@.map_values(|m: ConversationMessage| msg_view(m)) =~= prev.push(
                        self.log()[i as int],
                    ));
                }
            }
            i += 1;
        }
        proof {
            assert(self.log().take(n as int) =~= self.log());
        }
        Ok(out)
    }

    /// Totals, per-role counts, and the earliest and latest timestamps.
    pub fn get_stats(&self) -> (r: Result<MemoryStats, String>)
        ensures
            r matches Ok(st) && ({
                &&& st.total_messages == self.log().len()
                &&& st.user_messages == count_role(self.log(), MessageRole::User)
                &&& st.assistant_messages == count_role(self.log(), MessageRole::Assistant)
                &&& self.log().len() == 0 ==> st.first_message is None && st.last_message is None
                &&& self.log().len() > 0 ==> (st.first_message matches Some(t) && t == min_ts(
                    self.log(),
                )) && (st.last_message matches Some(t) && t == max_ts(self.log()))
            }),
    {
        let n = self.messages.len();
        if n == 0 {
            return Ok(
                MemoryStats {
                    total_messages: 0,
                    user_messages: 0,
                    assistant_messages: 0,
                    first_message: None,
                    last_message: None,
                },
            );
        }
        let mut user_count: usize = 0;
        let mut assistant_count: usize = 0;
        let mut mn: i64 = self.messages[0].timestamp_millis;
        let mut mx: i64 = self.messages[0].timestamp_millis;
        let mut i: usize = 0;
        proof {
            assert(self.log().take(0) =~= Seq::<MsgView>::empty());
            assert(msg_view(self.messages@[0]) == self.log()[0]);
        }
        while i < n
            invariant
                0 <= i <= n,
                n == self.messages@.len(),
                n == self.log().len(),
                n > 0,
                user_count == count_role(self.log().take(i as int), MessageRole::User),
                assistant_count == count_role(self.log().take(i as int), MessageRole::Assistant),
                i == 0 ==> mn == self.log()[0].timestamp_millis && mx
                    == self.log()[0].timestamp_millis,
                i > 0 ==> mn == min_ts(self.log().take(i as int)) && mx == max_ts(
                    self.log().take(i as int),
                ),
            decreases n - i,
        {
            proof {
                assert(self.log().take(i + 1 as int).drop_last() =~= self.log().take(i as int));
                assert(self.log().take(i + 1 as int).last() == self.log()[i as int]);
                assert(msg_view(self.messages@[i as int]) == self.log()[i as int]);
                lemma_count_role_bound(self.log().take(i as int), MessageRole::User);
                lemma_count_role_bound(self.log().take(i as int), MessageRole::Assistant);
                assert(self.log().take(i as int).len() == i as int);
                if i == 0 {
                    assert(self.log().take(1int).len() == 1);
                    assert(self.log().take(1int)[0] == self.log()[0]);
                }
            }
            let m = &self.messages[i];
            match m.role {
                MessageRole::User => {
                    user_count += 1;
                },
                MessageRole::Assistant => {
                    assistant_count += 1;
                },
                MessageRole::System => {},
            }
            let ts = m.timestamp_millis;
            if i == 0 {
                mn = ts;
                mx = ts;
            } else {
                if ts < mn {
                    mn = ts;
                }
                if ts > mx {
                    mx = ts;
                }
            }
            i += 1;
        }
        proof {
            assert(self.log().take(n as int) =~= self.log());
        }
        Ok(
            MemoryStats {
                total_messages: n,
                user_messages: user_count,
                assistant_messages: assistant_count,
                first_message: Some(mn),
                last_message: Some(mx),
            },
        )
    }

    /// Empties the log; ids start over from one.
    pub fn clear_history(&mut self) -> (r: Result<(), String>)
        ensures
            final (self).wf(),
            final (self).log() == Seq::<MsgView>::empty(),
            r is Ok,
    {
        self.messages.clear();
        self.next_id = 1;
        proof {
            assert(self.log() =~= Seq::<MsgView>::empty());
        }
        Ok(())
    }

    /// The prompt-context block over the most recent `limit` messages: a
    /// heading and one "role: content" line per message, or a fixed note
    /// when the log is empty.
    pub fn format_context(&self, limit: usize) -> (r: Result<String, String>)
        requires
            self.wf(),
        ensures
            r matches Ok(s) && s@ == format_context_spec(self.log(), limit as int),
    {
        let msgs = match self.get_recent_history(limit) {
            Ok(v) => v,
            Err(e) => {
                return Err(e);
            },
        };
        let ghost mv = msgs@.map_values(|m: ConversationMessage| msg_view(m));
        let n = msgs.len();
        if n == 0 {
            return Ok(String::from_str("No previous conversation history."));
        }
        let mut ctx = String::from_str("Previous conversation:\n");
        let mut i: usize = 0;
        proof {
            assert(mv.take(0) =~= Seq::<MsgView>::empty());
            assert(ctx@ =~= "Previous conversation:\n"@ + format_messages(mv.take(0)));
        }
        while i < n
            invariant
                0 <= i <= n,
                n == msgs@.len(),
                n == mv.len(),
                mv == msgs@.map_values(|m: ConversationMessage| msg_view(m)),
                ctx@ == "Previous conversation:\n"@ + format_messages(mv.take(i as int)),
            decreases n - i,
        {
            let ghost prev = ctx@;
            proof {
                assert(mv.take(i + 1 as int).drop_last() =~= mv.take(i as int));
                assert(mv.take(i + 1 as int).last() == mv[i as int]);
                assert(msg_view(msgs@[i as int]) == mv[i as int]);
            }
            let role_s = msgs[i].role.role_name();
            ctx.append(role_s.as_str());
            ctx.append(": ");
            ctx.append(msgs[i].content.as_str());
            push_char(&mut ctx, '\n');
            proof {
                assert(ctx@ =~= "Previous conversation:\n"@ + (format_messages(mv.take(i as int))
                    + role_name_spec(mv[i as int].role) + ": "@ + mv[i as int].content
                    + seq!['\n']));
            }
            i += 1;
        }
        proof {
            assert(mv.take(n as int) =~= mv);
        }
        Ok(ctx)
    }
}

} // verus!
