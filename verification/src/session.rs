//! The state of a conversation.
//!
//! A session accumulates the items of a conversation, puts them together with the system prompt
//! into requests, counts the tokens that were used, and drops old items where the conversation
//! grows over its budget.

use crate::item::{Item, ItemRequestView, ItemView, Message, ModelRequest, TextMessageView};
use crate::model::{TokenUsage, ToolSpec};
use crate::text;
use crate::text::IntoText;
use crate::views;
use vstd::prelude::*;

verus! {

broadcast use crate::views::group_views;

/// Four bytes are taken for about one token.
pub const BYTES_PER_TOKEN: usize = 4;

// ==================== Estimating ====================

/// About how many tokens the text of an item takes: one for each four bytes that are begun.
pub open spec fn item_tokens(item: ItemView) -> nat {
    match item.text_content() {
        Some(t) => (vstd::utf8::encode_utf8(t).len() + 3) / 4,
        None => 0,
    }
}

/// About how many tokens the items take.
pub open spec fn estimated(items: Seq<ItemView>) -> nat
    decreases items.len(),
{
    if items.len() == 0 {
        0
    } else {
        estimated(items.drop_last()) + item_tokens(items.last())
    }
}

/// The first item is the latest message of the user.
pub open spec fn user_is_first(items: Seq<ItemView>) -> bool {
    &&& items.len() > 0
    &&& items[0].is_user()
    &&& forall|i: int| 0 < i < items.len() ==> !(#[trigger] items[i]).is_user()
}

/// Nothing is to be dropped: the items keep the budget, or only one is left, or the next to go
/// would be the latest message of the user.
pub open spec fn settled(items: Seq<ItemView>, budget: nat) -> bool {
    estimated(items) <= budget || items.len() <= 1 || user_is_first(items)
}

/// The items without the oldest ones that have to go.
pub open spec fn truncated(items: Seq<ItemView>, budget: nat) -> Seq<ItemView>
    decreases items.len(),
{
    if settled(items, budget) {
        items
    } else {
        truncated(items.skip(1), budget)
    }
}

// ==================== Session ====================

/// A conversation with a model.
///
/// Every request carries the whole history: the service keeps no session.
pub struct Session {
    system_prompt: String,
    items: Vec<Item>,
    total_tokens: u32,
    max_context_tokens: u32,
}

/// What a [`Session`] holds.
pub struct SessionView {
    /// Sent in front of the items of every request.
    pub system_prompt: Seq<char>,
    /// The history, without the system prompt.
    pub items: Seq<ItemView>,
    /// The tokens used so far.
    pub total_tokens: u32,
    /// The budget for the history.
    pub max_context_tokens: u32,
}

impl View for Session {
    type V = SessionView;

    closed spec fn view(&self) -> SessionView {
        SessionView {
            system_prompt: self.system_prompt@,
            items: views::of(self.items@),
            total_tokens: self.total_tokens,
            max_context_tokens: self.max_context_tokens,
        }
    }
}

/// The sum of two counts. It stops at the largest count there is.
pub open spec fn saturating_sum(a: u32, b: int) -> u32 {
    if a + b > u32::MAX {
        u32::MAX
    } else {
        (a + b) as u32
    }
}

impl SessionView {
    /// The request that continues the conversation.
    pub open spec fn request(self, tools: Seq<crate::model::ToolSpecView>) -> ItemRequestView {
        ItemRequestView {
            items: seq![ItemView::Message(TextMessageView::System(self.system_prompt))]
                + self.items,
            tools,
            temperature: None,
        }
    }

    /// The session with one more item.
    pub open spec fn with_item(self, item: ItemView) -> SessionView {
        SessionView { items: self.items.push(item), ..self }
    }

    /// The session with more tokens used.
    pub open spec fn with_usage(self, usage: TokenUsage) -> SessionView {
        SessionView { total_tokens: saturating_sum(self.total_tokens, usage.tokens()), ..self }
    }

    /// The session without the oldest items that have to go.
    pub open spec fn within_budget(self) -> SessionView {
        SessionView { items: truncated(self.items, self.max_context_tokens as nat), ..self }
    }
}

impl Session {
    /// A new session without history.
    pub fn new<P: IntoText>(system_prompt: P, max_context_tokens: u32) -> (session: Self)
        ensures
            session@ == (SessionView {
                system_prompt: system_prompt.text(),
                items: Seq::empty(),
                total_tokens: 0,
                max_context_tokens,
            }),
    {
        Session {
            system_prompt: system_prompt.into_text(),
            items: Vec::new(),
            total_tokens: 0,
            max_context_tokens,
        }
    }

    /// Adds an item behind the history.
    pub fn push(&mut self, item: Item)
        ensures
            final(self)@ == old(self)@.with_item(item@),
    {
        self.items.push(item);
    }

    /// The history.
    pub fn items(&self) -> (items: &[Item])
        ensures
            views::of(items@) == self@.items,
    {
        self.items.as_slice()
    }

    /// How many items the history holds.
    pub fn len(&self) -> (n: usize)
        ensures
            n == self@.items.len(),
    {
        self.items.len()
    }

    /// Whether the history is empty.
    pub fn is_empty(&self) -> (b: bool)
        ensures
            b == (self@.items.len() == 0),
    {
        self.items.len() == 0
    }

    /// The request that continues the conversation: the system prompt, the history, the tools.
    pub fn build_request(&self, tools: &[ToolSpec]) -> (request: ModelRequest)
        ensures
            request@ == self@.request(views::of(tools@)),
    {
        let mut all: Vec<Item> = Vec::new();
        all.push(Item::message(Message::system(&self.system_prompt)));
        let ghost head = views::of(all@);
        for i in 0..self.items.len()
            invariant
                views::of(all@) == head + views::of(self.items@).take(i as int),
        {
            all.push(self.items[i].clone());
            assert(views::of(all@) =~= head + views::of(self.items@).take(i + 1));
        }
        let mut offered: Vec<ToolSpec> = Vec::new();
        for i in 0..tools.len()
            invariant
                views::of(offered@) == views::of(tools@).take(i as int),
        {
            offered.push(tools[i].clone());
            assert(views::of(offered@) =~= views::of(tools@).take(i + 1));
        }
        proof {
            assert(views::of(tools@).take(tools@.len() as int) =~= views::of(tools@));
            assert(views::of(self.items@).take(self.items@.len() as int) =~= views::of(
                self.items@,
            ));
            assert(head =~= seq![
                ItemView::Message(TextMessageView::System(self.system_prompt@)),
            ]);
        }
        ModelRequest { items: all, tools: offered, temperature: None }
    }

    /// Counts the tokens of a response.
    pub fn record_usage(&mut self, usage: TokenUsage)
        requires
            usage.countable(),
        ensures
            final(self)@ == old(self)@.with_usage(usage),
    {
        let used: u32 = usage.used();
        self.total_tokens = self.total_tokens.saturating_add(used);
    }

    /// The tokens used so far.
    pub fn total_tokens(&self) -> (n: u32)
        ensures
            n == self@.total_tokens,
    {
        self.total_tokens
    }

    /// Drops the oldest items until the history keeps the budget. The latest message of the user
    /// stays, and so does the last item. The system prompt does not count.
    pub fn truncate_to_budget(&mut self)
        ensures
            final(self)@ == old(self)@.within_budget(),
    {
        let budget: u128 = self.max_context_tokens as u128;
        let ghost all = self@;
        while self.estimate_tokens() > budget && self.items.len() > 1 && !self.user_comes_first()
            invariant
                budget == all.max_context_tokens,
                self@.system_prompt == all.system_prompt,
                self@.total_tokens == all.total_tokens,
                self@.max_context_tokens == all.max_context_tokens,
                truncated(self@.items, budget as nat) == truncated(all.items, budget as nat),
            decreases self@.items.len(),
        {
            let ghost before = self@.items;
            let _oldest = self.items.remove(0);
            assert(self@.items =~= before.skip(1));
        }
    }

    /// Whether the first item is the latest message of the user.
    fn user_comes_first(&self) -> (b: bool)
        ensures
            b == user_is_first(self@.items),
    {
        if self.items.len() == 0 || !self.items[0].is_user() {
            return false;
        }
        for i in 1..self.items.len()
            invariant
                forall|j: int| 0 < j < i ==> !(#[trigger] self@.items[j]).is_user(),
        {
            if self.items[i].is_user() {
                assert(self@.items[i as int].is_user());
                return false;
            }
        }
        true
    }

    /// Drops the history and the count of tokens. The system prompt stays.
    pub fn clear(&mut self)
        ensures
            final(self)@ == (SessionView { items: Seq::empty(), total_tokens: 0, ..old(self)@ }),
    {
        self.items.clear();
        self.total_tokens = 0;
    }

    /// About how many tokens the history takes.
    pub fn estimate_tokens(&self) -> (n: u128)
        ensures
            n == estimated(self@.items),
    {
        let mut n: u128 = 0;
        for i in 0..self.items.len()
            invariant
                n == estimated(self@.items.take(i as int)),
                n <= i * 0x1_0000_0000_0000_0000,
        {
            let bytes: usize = match self.items[i].text_content() {
                Some(t) => text::byte_len(t),
                None => 0,
            };
            let begun: usize = if bytes % BYTES_PER_TOKEN == 0 {
                bytes / BYTES_PER_TOKEN
            } else {
                bytes / BYTES_PER_TOKEN + 1
            };
            proof {
                let now = self@.items.take(i + 1);
                assert(now.drop_last() =~= self@.items.take(i as int));
                assert(now.last() == self.items@[i as int]@);
            }
            n = n + begun as u128;
        }
        assert(self@.items.take(self@.items.len() as int) =~= self@.items);
        n
    }
}

// ==================== Laws ====================

/// What truncation leaves is the end of the history.
pub proof fn law_truncation_drops_the_oldest(items: Seq<ItemView>, budget: nat)
    ensures
        truncated(items, budget).len() <= items.len(),
        truncated(items, budget) == items.skip(items.len() - truncated(items, budget).len()),
    decreases items.len(),
{
    if settled(items, budget) {
        assert(items.skip(0) =~= items);
    } else {
        let rest = items.skip(1);
        law_truncation_drops_the_oldest(rest, budget);
        let left = truncated(rest, budget);
        assert(rest.skip(rest.len() - left.len()) =~= items.skip(items.len() - left.len()));
    }
}

/// The latest message of the user is never dropped, wherever it stands in the history.
pub proof fn law_truncation_keeps_the_latest_user_message(
    items: Seq<ItemView>,
    budget: nat,
    k: int,
)
    requires
        0 <= k < items.len(),
        items[k].is_user(),
        forall|i: int| k < i < items.len() ==> !(#[trigger] items[i]).is_user(),
    ensures
        items.len() - truncated(items, budget).len() <= k,
        truncated(items, budget)[k - (items.len() - truncated(items, budget).len())] == items[k],
    decreases items.len(),
{
    if !settled(items, budget) {
        if k == 0 {
            assert(user_is_first(items));
        }
        let rest = items.skip(1);
        assert forall|i: int| k - 1 < i < rest.len() implies !(#[trigger] rest[i]).is_user() by {
            assert(rest[i] == items[i + 1]);
        }
        law_truncation_keeps_the_latest_user_message(rest, budget, k - 1);
    }
}

/// A history is left as it is where it keeps the budget, and truncating twice is truncating once.
pub proof fn law_truncation_settles(items: Seq<ItemView>, budget: nat)
    ensures
        estimated(items) <= budget ==> truncated(items, budget) == items,
        settled(truncated(items, budget), budget),
        truncated(truncated(items, budget), budget) == truncated(items, budget),
    decreases items.len(),
{
    if !settled(items, budget) {
        law_truncation_settles(items.skip(1), budget);
    }
}

/// No more is dropped than has to go: with one item more, what is left would not be settled.
pub proof fn law_truncation_drops_no_more_than_needed(items: Seq<ItemView>, budget: nat)
    requires
        truncated(items, budget).len() < items.len(),
    ensures
        !settled(items.skip(items.len() - truncated(items, budget).len() - 1), budget),
    decreases items.len(),
{
    let rest = items.skip(1);
    law_truncation_drops_the_oldest(rest, budget);
    if truncated(rest, budget).len() == rest.len() {
        assert(items.skip(0) =~= items);
    } else {
        law_truncation_drops_no_more_than_needed(rest, budget);
        let left = truncated(rest, budget).len();
        assert(rest.skip(rest.len() - left - 1) =~= items.skip(items.len() - left - 1));
    }
}

/// The history never goes empty by truncation.
pub proof fn law_truncation_leaves_something(items: Seq<ItemView>, budget: nat)
    requires
        items.len() > 0,
    ensures
        truncated(items, budget).len() > 0,
        truncated(items, budget).last() == items.last(),
    decreases items.len(),
{
    if !settled(items, budget) {
        law_truncation_leaves_something(items.skip(1), budget);
    }
}

/// Truncation stops above the budget only where a single item is left, or where the first item
/// that is left is a message of the user and no item at any later place is one.
pub proof fn law_truncation_reaches_the_budget(items: Seq<ItemView>, budget: nat)
    requires
        truncated(items, budget).len() > 1,
        estimated(truncated(items, budget)) > budget,
    ensures
        truncated(items, budget)[0] matches ItemView::Message(TextMessageView::User(_)),
        forall|k: int|
            0 < k < truncated(items, budget).len() ==> !((#[trigger] truncated(items, budget)[k])
                matches ItemView::Message(TextMessageView::User(_))),
{
    law_truncation_settles(items, budget);
    let left = truncated(items, budget);
    assert forall|k: int| 0 < k < left.len() implies !((#[trigger] left[k]) matches
    ItemView::Message(TextMessageView::User(_))) by {
        assert(!left[k].is_user());
    }
}

/// Where a message of the user stands behind the first item that truncation leaves, what is left
/// keeps the budget.
pub proof fn law_a_later_question_makes_room(items: Seq<ItemView>, budget: nat, k: int)
    requires
        0 < k < truncated(items, budget).len(),
        truncated(items, budget)[k] matches ItemView::Message(TextMessageView::User(_)),
    ensures
        estimated(truncated(items, budget)) <= budget,
{
    if estimated(truncated(items, budget)) > budget {
        law_truncation_reaches_the_budget(items, budget);
    }
}

/// Truncation drops an item only where it had to go: together with all that was left behind it,
/// it went over the budget; it was not the last item; and it was not the latest message of the
/// user.
pub proof fn law_what_is_dropped_had_to_go(items: Seq<ItemView>, budget: nat, k: int)
    requires
        0 <= k < items.len() - truncated(items, budget).len(),
    ensures
        estimated(items.skip(k)) > budget,
        k < items.len() - 1,
        items[k] matches ItemView::Message(TextMessageView::User(_)) ==> exists|i: int|
            k < i < items.len() && ((#[trigger] items[i]) matches ItemView::Message(
                TextMessageView::User(_),
            )),
    decreases items.len(),
{
    if k == 0 {
        assert(items.skip(0) =~= items);
        if items[0].is_user() {
            let i = choose|i: int| 0 < i < items.len() && (#[trigger] items[i]).is_user();
            assert(items[i] matches ItemView::Message(TextMessageView::User(_)));
        }
    } else {
        let rest = items.skip(1);
        law_truncation_drops_the_oldest(rest, budget);
        law_what_is_dropped_had_to_go(rest, budget, k - 1);
        assert(rest.skip(k - 1) =~= items.skip(k));
        if items[k] matches ItemView::Message(TextMessageView::User(_)) {
            let i = choose|i: int|
                k - 1 < i < rest.len() && ((#[trigger] rest[i]) matches ItemView::Message(
                    TextMessageView::User(_),
                ));
            assert(items[i + 1] == rest[i]);
        }
    }
}

/// The estimate adds up: the items of two lists are estimated at what both are together, and the
/// order does not matter.
pub proof fn law_estimates_add_up(a: Seq<ItemView>, b: Seq<ItemView>)
    ensures
        estimated(a + b) == estimated(a) + estimated(b),
    decreases b.len(),
{
    if b.len() == 0 {
        assert(a + b =~= a);
    } else {
        law_estimates_add_up(a, b.drop_last());
        assert((a + b).drop_last() =~= a + b.drop_last());
        assert((a + b).last() == b.last());
    }
}

/// A text is estimated at the least number of tokens that four bytes each are enough for. Tool
/// calls and their results are not counted.
pub proof fn law_an_item_takes_a_token_for_four_bytes(item: ItemView)
    ensures
        match item {
            ItemView::Message(TextMessageView::System(t)) | ItemView::Message(
                TextMessageView::User(t),
            ) | ItemView::Message(TextMessageView::Assistant(t)) => {
                let bytes = vstd::utf8::encode_utf8(t).len();
                bytes <= 4 * estimated(seq![item]) < bytes + 4
            },
            _ => estimated(seq![item]) == 0,
        },
{
    reveal_with_fuel(estimated, 2);
    assert(seq![item].drop_last() =~= Seq::<ItemView>::empty());
}

/// A request holds the system prompt first and then every item of the history in its place, and
/// the tools as they were handed in.
pub proof fn law_a_request_holds_the_history(
    session: SessionView,
    tools: Seq<crate::model::ToolSpecView>,
)
    ensures
        ({
            let request = session.request(tools);
            &&& request.items.len() == session.items.len() + 1
            &&& request.items[0] == ItemView::Message(
                TextMessageView::System(session.system_prompt),
            )
            &&& forall|i: int|
                0 <= i < session.items.len() ==> request.items[i + 1] == #[trigger] session.items[i]
            &&& request.tools == tools
            &&& request.temperature is None
        }),
{
}

/// An item that is added comes last, and nothing else changes.
pub proof fn law_an_item_is_added_last(session: SessionView, item: ItemView)
    ensures
        ({
            let more = session.with_item(item);
            &&& more.items.len() == session.items.len() + 1
            &&& more.items.last() == item
            &&& forall|i: int|
                0 <= i < session.items.len() ==> more.items[i] == #[trigger] session.items[i]
            &&& more.system_prompt == session.system_prompt
            &&& more.total_tokens == session.total_tokens
            &&& more.max_context_tokens == session.max_context_tokens
        }),
{
}

/// Counting adds the total that the service gave, or else what went in and what came out, as far
/// as the counter goes. The history does not change by it.
pub proof fn law_tokens_are_added(session: SessionView, usage: TokenUsage)
    requires
        usage.countable(),
    ensures
        ({
            let more = session.with_usage(usage);
            let input = match usage.input_tokens {
                Some(n) => n as int,
                None => 0,
            };
            let output = match usage.output_tokens {
                Some(n) => n as int,
                None => 0,
            };
            let used = match usage.total_tokens {
                Some(n) => n as int,
                None => input + output,
            };
            &&& session.total_tokens + used <= u32::MAX ==> more.total_tokens
                == session.total_tokens + used
            &&& session.total_tokens + used > u32::MAX ==> more.total_tokens == u32::MAX
            &&& more.items == session.items
            &&& more.system_prompt == session.system_prompt
            &&& more.max_context_tokens == session.max_context_tokens
        }),
{
}

/// Truncating a session cuts its history to its own budget, and changes nothing else.
pub proof fn law_a_session_keeps_its_budget(session: SessionView)
    ensures
        ({
            let left = session.within_budget();
            &&& left.items == truncated(session.items, session.max_context_tokens as nat)
            &&& left.system_prompt == session.system_prompt
            &&& left.total_tokens == session.total_tokens
            &&& left.max_context_tokens == session.max_context_tokens
            &&& estimated(session.items) <= session.max_context_tokens ==> left == session
        }),
{
    law_truncation_settles(session.items, session.max_context_tokens as nat);
}

} // verus!
