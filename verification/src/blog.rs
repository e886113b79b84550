//! The blog command handlers' decision logic. Each handler reads the
//! freshly fetched guild state, decides one mutation (or an error), and
//! hands a fixed confirmation reply back; the surrounding application
//! performs the platform calls between decisions.

use vstd::prelude::*;

use crate::channel::{
    at_most_one_owned, first_category_index, first_owned_index, has_category, has_owned, owned_by,
    spec_siblings, Channel,
};
use crate::channel::{
    find_category, find_owned, lemma_find_category_is_first, lemma_find_owned_is_first,
    siblings_of,
};
use crate::planner::{lemma_has_owned_multiset, sort_by_name, sorted_by_name, spec_slot, Slot};
use crate::planner::slot_position;

verus! {

/// Everything a blog command can fail with. The first five are
/// recoverable and become the single user-visible error reply; the last
/// two are precondition violations (a misconfigured guild) and abort the
/// operation before any mutation.
#[derive(PartialEq, Eq, Structural, Clone, Copy, Debug)]
pub enum BlogError {
    /// `create` found a channel already carrying the invoker's marker.
    AlreadyExists,
    /// `nick` or `delete` found no channel carrying the invoker's marker.
    NoBlog,
    /// The interaction carried no options at all.
    NoOptions,
    /// The interaction's first option is not a subcommand.
    NotSubcommand,
    /// The subcommand's first option is not a string.
    NotString,
    /// No channel of the guild is named "Blogs".
    MissingCategory,
    /// The sibling group to reorder is empty.
    EmptySiblingGroup,
}

impl BlogError {
    /// Whether the error is a precondition violation that must abort the
    /// operation instead of becoming a user-visible reply.
    pub open spec fn spec_is_fatal(self) -> bool {
        self is MissingCategory || self is EmptySiblingGroup
    }

    /// Exec test for `spec_is_fatal`, for the caller that must fail
    /// loudly on a fatal error before formatting a reply.
    pub fn is_fatal(&self) -> (r: bool)
        ensures
            r == self.spec_is_fatal(),
    {
        match self {
            BlogError::MissingCategory => true,
            BlogError::EmptySiblingGroup => true,
            _ => false,
        }
    }

    /// The user-visible text of a recoverable error, verbatim.
    pub fn reply_text(&self) -> (r: String)
        requires
            !self.spec_is_fatal(),
        ensures
            self is AlreadyExists ==> r@ == "Do not be greedy! Your blog channel already exists."@,
            self is NoBlog ==> r@ == "You don't have a blog silly goose!"@,
            self is NoOptions ==> r@ == "No options present"@,
            self is NotSubcommand ==> r@ == "Option is not a subcommand"@,
            self is NotString ==> r@ == "Option is not a str"@,
    {
        match self {
            BlogError::AlreadyExists => String::from_str(
                "Do not be greedy! Your blog channel already exists.",
            ),
            BlogError::NoBlog => String::from_str("You don't have a blog silly goose!"),
            BlogError::NoOptions => String::from_str("No options present"),
            BlogError::NotSubcommand => String::from_str("Option is not a subcommand"),
            _ => String::from_str("Option is not a str"),
        }
    }
}

/// The one mutation `create` decides: a new channel under the category,
/// named after the invoker, carrying the invoker's marker as its topic,
/// with send permission granted to the invoker and denied to the
/// configured role.
#[derive(Debug)]
pub struct ChannelPlan {
    pub name: String,
    pub topic: String,
    pub category: u64,
    pub allow_member: u64,
    pub deny_role: u64,
}

/// Decide the `create` command: reject a second channel for the same
/// owner, fail loudly when the category is missing, and otherwise plan
/// the new channel exactly.
pub fn create(
    channels: &Vec<Channel>,
    marker: &String,
    user_name: &String,
    user_id: u64,
    deny_role: u64,
) -> (r: Result<ChannelPlan, BlogError>)
    ensures
        match r {
            Ok(plan) => {
                &&& !has_owned(channels@, marker@)
                &&& has_category(channels@)
                &&& plan.category == channels@[first_category_index(channels@)].id
                &&& plan.name@ == user_name@
                &&& plan.topic@ == marker@
                &&& plan.allow_member == user_id
                &&& plan.deny_role == deny_role
            },
            Err(e) => {
                &&& e is AlreadyExists || e is MissingCategory
                &&& e is AlreadyExists <==> has_owned(channels@, marker@)
                &&& e is MissingCategory ==> !has_category(channels@)
            },
        },
{
    if find_owned(channels, marker).is_some() {
        return Err(BlogError::AlreadyExists);
    }
    match find_category(channels) {
        None => Err(BlogError::MissingCategory),
        Some(ci) => {
            proof {
                lemma_find_category_is_first(channels@, ci as int);
            }
            Ok(
                ChannelPlan {
                    name: user_name.clone(),
                    topic: marker.clone(),
                    category: channels[ci].id,
                    allow_member: user_id,
                    deny_role,
                },
            )
        },
    }
}

/// Locate the invoker's channel for `nick` or `delete`: the identity of
/// the first channel carrying the marker, or the "no blog" error.
fn locate_owned(channels: &Vec<Channel>, marker: &String) -> (r: Result<u64, BlogError>)
    ensures
        match r {
            Ok(id) => {
                &&& has_owned(channels@, marker@)
                &&& id == channels@[first_owned_index(channels@, marker@)].id
            },
            Err(e) => e is NoBlog && !has_owned(channels@, marker@),
        },
{
    match find_owned(channels, marker) {
        None => Err(BlogError::NoBlog),
        Some(i) => {
            proof {
                lemma_find_owned_is_first(channels@, marker@, i as int);
            }
            Ok(channels[i].id)
        },
    }
}

/// Decide the `nick` command's rename target: the owned channel, or the
/// "no blog" error when the invoker owns none. A missing category is a
/// precondition violation and aborts here, before any mutation: the
/// rename and the re-planning run only afterwards.
pub fn nick(channels: &Vec<Channel>, marker: &String) -> (r: Result<u64, BlogError>)
    ensures
        match r {
            Ok(id) => {
                &&& has_owned(channels@, marker@)
                &&& has_category(channels@)
                &&& id == channels@[first_owned_index(channels@, marker@)].id
            },
            Err(e) => {
                &&& (e is NoBlog <==> !has_owned(channels@, marker@))
                &&& (e is MissingCategory <==> (has_owned(channels@, marker@) && !has_category(
                    channels@,
                )))
                &&& (e is NoBlog || e is MissingCategory)
            },
        },
{
    let id = match locate_owned(channels, marker) {
        Err(e) => {
            return Err(e);
        },
        Ok(id) => id,
    };
    if find_category(channels).is_none() {
        return Err(BlogError::MissingCategory);
    }
    Ok(id)
}

/// Decide the `delete` command: the owned channel to delete, or the
/// "no blog" error — in which case nothing is mutated.
pub fn delete(channels: &Vec<Channel>, marker: &String) -> (r: Result<u64, BlogError>)
    ensures
        match r {
            Ok(id) => {
                &&& has_owned(channels@, marker@)
                &&& id == channels@[first_owned_index(channels@, marker@)].id
            },
            Err(e) => e is NoBlog && !has_owned(channels@, marker@),
        },
{
    locate_owned(channels, marker)
}

/// One option of an interaction, as the decision logic reads it: a name
/// and a value that is a string, a nested subcommand, or something else.
pub enum OptionValue {
    Str(String),
    Sub(Vec<CommandOption>),
    Other,
}

/// A named option of an interaction.
pub struct CommandOption {
    pub name: String,
    pub value: OptionValue,
}

/// Resolve the name `nick` renames to: the subcommand's explicit string
/// argument when present, else the invoker's current display name; a
/// malformed option tree is reported field by field.
pub fn resolve_nick_name(options: &Vec<CommandOption>, fallback: &String) -> (r: Result<
    String,
    BlogError,
>)
    ensures
        match r {
            Ok(name) => {
                &&& options@.len() > 0
                &&& options@[0].value matches OptionValue::Sub(sub) && (if sub@.len() == 0 {
                    name@ == fallback@
                } else {
                    sub@[0].value matches OptionValue::Str(s) && name@ == s@
                })
            },
            Err(e) => {
                &&& e is NoOptions <==> options@.len() == 0
                &&& e is NotSubcommand <==> (options@.len() > 0 && !(options@[0].value
                    is Sub))
                &&& e is NotString <==> (options@.len() > 0
                    && (options@[0].value matches OptionValue::Sub(sub) && sub@.len() > 0 && !(
                sub@[0].value is Str)))
                &&& (e is NoOptions || e is NotSubcommand || e is NotString)
            },
        },
{
    if options.len() == 0 {
        return Err(BlogError::NoOptions);
    }
    match &options[0].value {
        OptionValue::Sub(sub) => {
            if sub.len() == 0 {
                Ok(fallback.clone())
            } else {
                match &sub[0].value {
                    OptionValue::Str(s) => Ok(s.clone()),
                    _ => Err(BlogError::NotString),
                }
            }
        },
        _ => Err(BlogError::NotSubcommand),
    }
}

/// Plan the position fix-up after a creation or rename: collect the
/// category's sibling group, sort it alphabetically, and walk it for the
/// owned channel's slot. An empty sibling group is a fatal precondition
/// violation — the category was just written to, so it cannot be empty.
pub fn plan_position(channels: &Vec<Channel>, category: u64, marker: &String) -> (r: Result<
    Slot,
    BlogError,
>)
    ensures
        match r {
            Err(e) => e is EmptySiblingGroup && spec_siblings(channels@, category).len() == 0,
            Ok(slot) => {
                &&& spec_siblings(channels@, category).len() > 0
                &&& exists|t: Seq<Channel>|
                    {
                        &&& t.to_multiset() == spec_siblings(channels@, category).to_multiset()
                        &&& #[trigger] sorted_by_name(t)
                        &&& slot == spec_slot(t, marker@)
                    }
                &&& (slot is Absent <==> !has_owned(
                    spec_siblings(channels@, category),
                    marker@,
                ))
            },
        },
{
    let siblings = siblings_of(channels, category);
    if siblings.len() == 0 {
        return Err(BlogError::EmptySiblingGroup);
    }
    let sorted = sort_by_name(&siblings);
    let slot = slot_position(&sorted, marker);
    proof {
        lemma_has_owned_multiset(sorted@, siblings@, marker@);
        assert(sorted_by_name(sorted@) && slot == spec_slot(sorted@, marker@)
            && sorted@.to_multiset() == spec_siblings(channels@, category).to_multiset());
    }
    Ok(slot)
}

/// One step of a single owner's channel lifecycle, as the verified
/// handlers decide it. `Create` carries the channel the platform then
/// inserts; it mutates nothing when the owner already has a channel
/// (`create` fails first) or when the new channel would not carry the
/// owner's marker (`create` plans the marker as the topic). `Delete`
/// removes the owned channel, and mutates nothing when there is none
/// (`delete` fails first).
pub enum OwnerOp {
    Create(Channel),
    Delete,
}

/// The guild channel set after one lifecycle step of the owner.
pub open spec fn apply_op(s: Seq<Channel>, op: OwnerOp, marker: Seq<char>) -> Seq<Channel> {
    match op {
        OwnerOp::Create(c) => {
            if !has_owned(s, marker) && owned_by(c, marker) {
                s.push(c)
            } else {
                s
            }
        },
        OwnerOp::Delete => {
            if has_owned(s, marker) {
                s.remove(first_owned_index(s, marker))
            } else {
                s
            }
        },
    }
}

/// The guild channel set after a whole sequence of lifecycle steps.
pub open spec fn apply_ops(s: Seq<Channel>, ops: Seq<OwnerOp>, marker: Seq<char>) -> Seq<Channel>
    decreases ops.len(),
{
    if ops.len() == 0 {
        s
    } else {
        apply_ops(apply_op(s, ops[0], marker), ops.skip(1), marker)
    }
}

/// One lifecycle step keeps the ownership invariant: at most one channel
/// carries the owner's marker afterwards.
pub proof fn lemma_op_preserves_uniqueness(s: Seq<Channel>, op: OwnerOp, marker: Seq<char>)
    requires
        at_most_one_owned(s, marker),
    ensures
        at_most_one_owned(apply_op(s, op, marker), marker),
{
    let t = apply_op(s, op, marker);
    match op {
        OwnerOp::Create(c) => {
            if !has_owned(s, marker) && owned_by(c, marker) {
                assert forall|i: int, j: int|
                    0 <= i < t.len() && 0 <= j < t.len() && owned_by(t[i], marker) && owned_by(
                        t[j],
                        marker,
                    ) implies i == j by {
                    if i < s.len() {
                        assert(t[i] == s[i]);
                        assert(has_owned(s, marker));
                    }
                    if j < s.len() {
                        assert(t[j] == s[j]);
                        assert(has_owned(s, marker));
                    }
                }
            }
        },
        OwnerOp::Delete => {
            if has_owned(s, marker) {
                let k = first_owned_index(s, marker);
                crate::channel::lemma_first_owned_index(s, marker);
                assert forall|i: int, j: int|
                    0 <= i < t.len() && 0 <= j < t.len() && owned_by(t[i], marker) && owned_by(
                        t[j],
                        marker,
                    ) implies i == j by {
                    let pi = if i < k {
                        i
                    } else {
                        i + 1
                    };
                    let pj = if j < k {
                        j
                    } else {
                        j + 1
                    };
                    assert(t[i] == s[pi]);
                    assert(t[j] == s[pj]);
                    assert(pi == pj);
                }
            }
        },
    }
}

/// `Create` mutates exactly when it may: the planned channel (which
/// carries the owner's marker as its topic) is inserted iff no channel
/// carried the marker at fetch time — duplicate creation never mutates —
/// and after a successful insertion the owner has a channel.
pub proof fn lemma_create_mutates_iff_unowned(s: Seq<Channel>, c: Channel, marker: Seq<char>)
    requires
        owned_by(c, marker),
    ensures
        !has_owned(s, marker) ==> apply_op(s, OwnerOp::Create(c), marker) == s.push(c)
            && has_owned(s.push(c), marker),
        has_owned(s, marker) ==> apply_op(s, OwnerOp::Create(c), marker) == s,
{
    if !has_owned(s, marker) {
        assert(s.push(c)[s.len() as int] == c);
    }
}

/// No duplicate creation succeeds: starting from a guild where the owner
/// has at most one channel, any sequence of `create` and `delete` steps
/// leaves the owner with at most one channel.
pub proof fn lemma_owner_uniqueness(s: Seq<Channel>, ops: Seq<OwnerOp>, marker: Seq<char>)
    requires
        at_most_one_owned(s, marker),
    ensures
        at_most_one_owned(apply_ops(s, ops, marker), marker),
    decreases ops.len(),
{
    if ops.len() != 0 {
        lemma_op_preserves_uniqueness(s, ops[0], marker);
        lemma_owner_uniqueness(apply_op(s, ops[0], marker), ops.skip(1), marker);
    }
}

/// One webhook of a channel, as the decision logic reads it: identity,
/// optional name, and the secure token the platform hands out (absent
/// when the webhook was fetched without it).
pub struct Webhook {
    pub id: u64,
    pub name: Option<String>,
    pub token: Option<String>,
}

/// The URL of a webhook, as the platform derives it from the webhook's
/// identity and token alone; a webhook without a token has none.
pub fn webhook_url(id: u64, token: &Option<String>) -> (r: Option<String>)
    ensures
        match r {
            Some(u) => token matches Some(t) && u@ == "https://discord.com/api/webhooks/"@
                + crate::channel::dec_chars(id) + "/"@ + t@,
            None => token is None,
        },
{
    match token {
        None => None,
        Some(t) => {
            let url = String::from_str("https://discord.com/api/webhooks/").concat(
                crate::channel::marker_of(id).as_str(),
            ).concat("/").concat(t.as_str());
            Some(url)
        },
    }
}

/// Whether a webhook is the blog hook: its name equals "BlogHook".
pub open spec fn is_bloghook(w: Webhook) -> bool {
    w.name matches Some(n) && n@ == "BlogHook"@
}

/// Whether the channel already carries a blog hook.
pub open spec fn has_bloghook(s: Seq<Webhook>) -> bool {
    exists|i: int| 0 <= i < s.len() && is_bloghook(s[i])
}

/// Index of the first blog hook (meaningful only when `has_bloghook`
/// holds).
pub open spec fn first_bloghook_index(s: Seq<Webhook>) -> int
    decreases s.len(),
{
    if s.len() == 0 {
        0
    } else if is_bloghook(s[0]) {
        0
    } else {
        1 + first_bloghook_index(s.skip(1))
    }
}

/// A first-match index for the blog hook agrees with
/// `first_bloghook_index`.
proof fn lemma_find_bloghook_is_first(s: Seq<Webhook>, i: int)
    requires
        0 <= i < s.len(),
        is_bloghook(s[i]),
        forall|j: int| 0 <= j < i ==> !is_bloghook(s[j]),
    ensures
        has_bloghook(s),
        first_bloghook_index(s) == i,
    decreases s.len(),
{
    if i > 0 {
        assert(s.skip(1)[i - 1] == s[i]);
        assert(forall|j: int| 0 <= j < i - 1 ==> #[trigger] s.skip(1)[j] == s[j + 1]);
        lemma_find_bloghook_is_first(s.skip(1), i - 1);
    }
}

/// The fixed name of the blog hook.
pub fn webhook_name() -> (r: String)
    ensures
        r@ == "BlogHook"@,
{
    String::from_str("BlogHook")
}

/// Decide the `webhook` command: reuse the channel's existing blog hook
/// when there is one (`Some` of its index), create one only when there
/// is none (`None`).
pub fn webhook(webhooks: &Vec<Webhook>) -> (r: Option<usize>)
    ensures
        match r {
            Some(i) => {
                &&& has_bloghook(webhooks@)
                &&& i == first_bloghook_index(webhooks@)
                &&& i < webhooks@.len()
                &&& is_bloghook(webhooks@[i as int])
            },
            None => !has_bloghook(webhooks@),
        },
{
    let mut i: usize = 0;
    while i < webhooks.len()
        invariant
            i <= webhooks@.len(),
            forall|j: int| 0 <= j < i ==> !is_bloghook(webhooks@[j]),
        decreases webhooks@.len() - i,
    {
        let is_hook = match &webhooks[i].name {
            Some(n) => crate::order::str_eq(n.as_str(), "BlogHook"),
            None => false,
        };
        if is_hook {
            proof {
                lemma_find_bloghook_is_first(webhooks@, i as int);
            }
            return Some(i);
        }
        i = i + 1;
    }
    None
}

/// The webhook lookup is idempotent: against a channel that already has
/// a blog hook it decides to reuse the first one, never to create
/// another — so the webhook list is left unchanged, and a second lookup
/// against the same list reuses the very same webhook (hence returns the
/// same URL).
pub proof fn lemma_webhook_idempotent(ws: Seq<Webhook>)
    requires
        has_bloghook(ws),
    ensures
        0 <= first_bloghook_index(ws) < ws.len(),
        is_bloghook(ws[first_bloghook_index(ws)]),
    decreases ws.len(),
{
    if ws.len() != 0 && !is_bloghook(ws[0]) {
        assert(has_bloghook(ws.skip(1))) by {
            let i = choose|i: int| 0 <= i < ws.len() && is_bloghook(ws[i]);
            assert(i > 0);
            assert(ws.skip(1)[i - 1] == ws[i]);
        }
        lemma_webhook_idempotent(ws.skip(1));
        assert(ws[1 + first_bloghook_index(ws.skip(1))] == ws.skip(1)[first_bloghook_index(
            ws.skip(1),
        )]);
    }
}

/// The reply of `webhook` (sent visible only to the invoker), carrying
/// the hook's URL verbatim.
pub fn webhook_reply(url: &String) -> (r: String)
    ensures
        r@ == "Your blog channel's webhook URL is: "@ + url@,
{
    String::from_str("Your blog channel's webhook URL is: ").concat(url.as_str())
}

/// The wrapped message for a failure while creating the webhook at the
/// collaborator boundary.
pub fn webhook_error(message: &String) -> (r: String)
    ensures
        r@ == "Error while creating webhook: "@ + message@,
{
    String::from_str("Error while creating webhook: ").concat(message.as_str())
}

/// The fixed confirmation reply of `create`.
pub fn created_reply() -> (r: String)
    ensures
        r@ == "Your blog channel has been created!"@,
{
    String::from_str("Your blog channel has been created!")
}

/// The fixed confirmation reply of `nick`.
pub fn renamed_reply() -> (r: String)
    ensures
        r@ == "Your blog channel has been renamed!"@,
{
    String::from_str("Your blog channel has been renamed!")
}

/// The fixed confirmation reply of `delete`.
pub fn deleted_reply() -> (r: String)
    ensures
        r@ == "Your blog channel has been deleted!"@,
{
    String::from_str("Your blog channel has been deleted!")
}

} // verus!
