//! The tools that upstream servers offer.

use vstd::prelude::*;

use crate::names::{order_with, NameTable};

verus! {

/// How many seconds an upstream has to list its tools, all pages together.
pub const DISCOVERY_TIMEOUT_SECS: u64 = 30;

/// A tool as an upstream lists it: the name by which it is called, and its definition,
/// which is handed on as it came.
#[derive(Debug, PartialEq, Eq)]
pub struct Tool<P> {
    pub name: String,
    pub definition: P,
}

/// A tool's definition and the upstream server that offers the tool.
#[derive(Debug, PartialEq, Eq)]
pub struct ToolRecord<P> {
    pub definition: P,
    pub server: String,
}

/// A [`ToolRecord`] as a mathematical value.
pub struct ToolView<P> {
    pub definition: P,
    pub server: Seq<char>,
}

impl<P> View for ToolRecord<P> {
    type V = ToolView<P>;

    open spec fn view(&self) -> ToolView<P> {
        ToolView { definition: self.definition, server: self.server@ }
    }
}

/// What came of asking an upstream for its tools.
#[derive(Debug, PartialEq, Eq)]
pub enum Discovery<P> {
    /// The upstream listed these tools.
    Listed(Vec<Tool<P>>),
    /// The upstream answered with an error.
    Failed,
    /// The upstream did not answer in time.
    TimedOut,
    /// The upstream's client had been shut down before it could be asked.
    ClientTaken,
}

/// The tools that a discovery brings.
pub open spec fn discovered<P>(discovery: Discovery<P>) -> Seq<Tool<P>> {
    match discovery {
        Discovery::Listed(tools) => tools@,
        _ => Seq::empty(),
    }
}

/// What came of asking an upstream for one page of its tools.
#[derive(Debug, PartialEq, Eq)]
pub enum PageReply<P> {
    /// The upstream listed these tools, and more come after the cursor if there is one.
    Page { tools: Vec<Tool<P>>, next_cursor: Option<String> },
    /// The upstream answered with an error.
    Failed,
    /// The upstream did not answer in time.
    TimedOut,
    /// The upstream's client had been shut down before it could be asked.
    ClientTaken,
}

/// The discovery that a reply amounts to.
pub open spec fn discovery_of<P>(reply: PageReply<P>) -> Discovery<P> {
    match reply {
        PageReply::Page { tools, .. } => Discovery::Listed(tools),
        PageReply::Failed => Discovery::Failed,
        PageReply::TimedOut => Discovery::TimedOut,
        PageReply::ClientTaken => Discovery::ClientTaken,
    }
}

/// The tools that a reply brings.
pub open spec fn reply_tools<P>(reply: PageReply<P>) -> Seq<Tool<P>> {
    discovered(discovery_of(reply))
}

/// What a listing of an upstream's tools asks for next.
#[derive(Debug, PartialEq, Eq)]
pub enum ListingAction<'a> {
    /// Ask for the first page.
    AskFirst,
    /// Ask for the page after this cursor.
    AskAfter { cursor: &'a String },
    /// Nothing: the listing is over.
    Finished,
}

/// A listing of all tools of one upstream, page after page.
pub struct ToolListing {
    next: NextPage,
}

/// The page that a listing waits for.
enum NextPage {
    First,
    After(String),
    Nothing,
}

/// A [`ToolListing`] as a mathematical value.
pub enum ListingView {
    First,
    After(Seq<char>),
    Finished,
}

/// Where a listing that was not over stands after a reply: at the page after the cursor
/// that came with the reply, and at its end where none came.
pub open spec fn listing_after<P>(reply: PageReply<P>) -> ListingView {
    match reply {
        PageReply::Page { next_cursor: Some(cursor), .. } => ListingView::After(cursor@),
        _ => ListingView::Finished,
    }
}

impl View for ToolListing {
    type V = ListingView;

    closed spec fn view(&self) -> ListingView {
        match self.next {
            NextPage::First => ListingView::First,
            NextPage::After(cursor) => ListingView::After(cursor@),
            NextPage::Nothing => ListingView::Finished,
        }
    }
}

impl ToolListing {
    /// A listing, before its first page.
    pub fn new() -> (listing: Self)
        ensures
            listing@ == ListingView::First,
    {
        ToolListing { next: NextPage::First }
    }

    /// What to do next.
    pub fn pending(&self) -> (action: ListingAction<'_>)
        ensures
            match self@ {
                ListingView::First => action is AskFirst,
                ListingView::After(text) => action matches ListingAction::AskAfter { cursor }
                    && cursor@ == text,
                ListingView::Finished => action is Finished,
            },
    {
        match &self.next {
            NextPage::First => ListingAction::AskFirst,
            NextPage::After(cursor) => ListingAction::AskAfter { cursor },
            NextPage::Nothing => ListingAction::Finished,
        }
    }

    /// Goes on with what came of asking for a page, and gives back the discovery to take
    /// in. A listing that is over takes no reply.
    pub fn advance<P>(&mut self, reply: PageReply<P>) -> (discovery: Option<Discovery<P>>)
        ensures
            old(self)@ is Finished ==> final(self)@ is Finished && discovery is None,
            !(old(self)@ is Finished) ==> {
                &&& final(self)@ == listing_after(reply)
                &&& discovery == Some(discovery_of(reply))
            },
            !(old(self)@ is Finished) ==> match reply {
                PageReply::Page { tools, next_cursor } => {
                    &&& discovery == Some(Discovery::Listed(tools))
                    &&& match next_cursor {
                        Some(cursor) => final(self)@ == ListingView::After(cursor@),
                        None => final(self)@ is Finished,
                    }
                },
                PageReply::Failed => final(self)@ is Finished && discovery == Some(
                    Discovery::<P>::Failed,
                ),
                PageReply::TimedOut => final(self)@ is Finished && discovery == Some(
                    Discovery::<P>::TimedOut,
                ),
                PageReply::ClientTaken => final(self)@ is Finished && discovery == Some(
                    Discovery::<P>::ClientTaken,
                ),
            },
    {
        match self.next {
            NextPage::Nothing => {
                return None;
            },
            _ => {},
        }
        match reply {
            PageReply::Page { tools, next_cursor } => {
                self.next = match next_cursor {
                    Some(cursor) => NextPage::After(cursor),
                    None => NextPage::Nothing,
                };
                Some(Discovery::Listed(tools))
            },
            PageReply::Failed => {
                self.next = NextPage::Nothing;
                Some(Discovery::Failed)
            },
            PageReply::TimedOut => {
                self.next = NextPage::Nothing;
                Some(Discovery::TimedOut)
            },
            PageReply::ClientTaken => {
                self.next = NextPage::Nothing;
                Some(Discovery::ClientTaken)
            },
        }
    }
}

/// Where a listing stands after replies, one after another.
pub open spec fn listing_run<P>(replies: Seq<PageReply<P>>) -> ListingView
    decreases replies.len(),
{
    if replies.len() == 0 {
        ListingView::First
    } else if listing_run(replies.drop_last()) is Finished {
        ListingView::Finished
    } else {
        listing_after(replies.last())
    }
}

/// The tools that a listing has brought after replies, one after another.
pub open spec fn listing_tools<P>(replies: Seq<PageReply<P>>) -> Seq<Tool<P>>
    decreases replies.len(),
{
    if replies.len() == 0 {
        Seq::empty()
    } else if listing_run(replies.drop_last()) is Finished {
        listing_tools(replies.drop_last())
    } else {
        listing_tools(replies.drop_last()) + reply_tools(replies.last())
    }
}

/// Whether replies are all pages of an upstream: every one but the last comes with a cursor.
pub open spec fn all_pages<P>(replies: Seq<PageReply<P>>) -> bool {
    &&& replies.len() > 0
    &&& forall|i: int|
        0 <= i < replies.len() - 1 ==> listing_after(#[trigger] replies[i]) is After
    &&& replies.last() matches PageReply::Page { next_cursor: None, .. }
}

/// Whether the reply at place `i` lists a tool of this name.
pub open spec fn page_lists<P>(replies: Seq<PageReply<P>>, i: int, name: Seq<char>) -> bool {
    0 <= i < replies.len() && lists(reply_tools(replies[i]), name)
}

/// A name is listed by two listings together exactly where it is listed by one of them.
proof fn lemma_lists_both<P>(first: Seq<Tool<P>>, second: Seq<Tool<P>>, name: Seq<char>)
    ensures
        lists(first + second, name) <==> lists(first, name) || lists(second, name),
{
    let both = first + second;
    if lists(both, name) {
        let i = choose|i: int| 0 <= i < both.len() && #[trigger] both[i].name@ == name;
        if i < first.len() {
            assert(first[i].name@ == name);
        } else {
            assert(second[i - first.len()].name@ == name);
        }
    }
    if lists(first, name) {
        let i = choose|i: int| 0 <= i < first.len() && #[trigger] first[i].name@ == name;
        assert(both[i].name@ == name);
    }
    if lists(second, name) {
        let i = choose|i: int| 0 <= i < second.len() && #[trigger] second[i].name@ == name;
        assert(both[i + first.len()].name@ == name);
    }
}

/// While every page comes with a cursor, a listing goes on and brings what each page lists.
proof fn lemma_pages<P>(replies: Seq<PageReply<P>>, name: Seq<char>)
    requires
        forall|i: int| 0 <= i < replies.len() - 1 ==> listing_after(#[trigger] replies[i]) is After,
    ensures
        replies.len() > 0 ==> listing_run(replies) == listing_after(replies.last()),
        lists(listing_tools(replies), name) <==> exists|i: int| page_lists(replies, i, name),
    decreases replies.len(),
{
    if replies.len() == 0 {
        assert(!lists(listing_tools(replies), name));
    } else {
        let fewer = replies.drop_last();
        let last = replies.len() - 1;
        assert forall|i: int| 0 <= i < fewer.len() - 1 implies listing_after(
            #[trigger] fewer[i],
        ) is After by {
            assert(listing_after(replies[i]) is After);
        }
        lemma_pages(fewer, name);
        if fewer.len() > 0 {
            assert(listing_after(replies[last - 1]) is After);
        }
        lemma_lists_both(listing_tools(fewer), reply_tools(replies[last]), name);
        if exists|i: int| page_lists(replies, i, name) {
            let i = choose|i: int| page_lists(replies, i, name);
            if i < last {
                assert(page_lists(fewer, i, name));
            }
        }
        if exists|i: int| page_lists(fewer, i, name) {
            let i = choose|i: int| page_lists(fewer, i, name);
            assert(page_lists(replies, i, name));
        }
        if lists(reply_tools(replies[last]), name) {
            assert(page_lists(replies, last, name));
        }
    }
}

/// A listing takes in every page of an upstream: it asks for the first page, then for the
/// page after each cursor as it came, and is over exactly at the page that comes without
/// one. What it brings lists a name exactly where some page does.
pub proof fn law_listings_take_in_every_page<P>(
    replies: Seq<PageReply<P>>,
    k: int,
    name: Seq<char>,
)
    requires
        all_pages(replies),
        0 <= k < replies.len(),
    ensures
        listing_run(replies) is Finished,
        k == 0 ==> listing_run(replies.take(k)) == ListingView::First,
        k > 0 ==> {
            &&& listing_run(replies.take(k)) is After
            &&& listing_run(replies.take(k)) == listing_after(replies[k - 1])
        },
        lists(listing_tools(replies), name) <==> exists|i: int| page_lists(replies, i, name),
{
    lemma_pages(replies, name);
    let part = replies.take(k);
    assert forall|i: int| 0 <= i < part.len() - 1 implies listing_after(#[trigger] part[i]) is After by {
        assert(listing_after(replies[i]) is After);
    }
    lemma_pages(part, name);
    if k > 0 {
        assert(part.last() == replies[k - 1]);
        assert(listing_after(replies[k - 1]) is After);
    }
}

/// Taking two pages in one after the other comes to the same as taking them in together.
pub proof fn law_pages_make_one_listing<P>(
    known: Map<Seq<char>, ToolView<P>>,
    order: Seq<Seq<char>>,
    server: Seq<char>,
    first: Seq<Tool<P>>,
    second: Seq<Tool<P>>,
)
    ensures
        with_tools(known, server, first + second) == with_tools(
            with_tools(known, server, first),
            server,
            second,
        ),
        order_with_tools(order, first + second) == order_with_tools(
            order_with_tools(order, first),
            second,
        ),
    decreases second.len(),
{
    if second.len() == 0 {
        assert(first + second =~= first);
    } else {
        law_pages_make_one_listing(known, order, server, first, second.drop_last());
        assert((first + second).drop_last() =~= first + second.drop_last());
        assert((first + second).last() == second.last());
    }
}

/// The known tools after `server` listed `tools`: each of them now belongs to `server`,
/// and of two with one name the later stays.
pub open spec fn with_tools<P>(
    known: Map<Seq<char>, ToolView<P>>,
    server: Seq<char>,
    tools: Seq<Tool<P>>,
) -> Map<Seq<char>, ToolView<P>>
    decreases tools.len(),
{
    if tools.len() == 0 {
        known
    } else {
        with_tools(known, server, tools.drop_last()).insert(
            tools.last().name@,
            ToolView { definition: tools.last().definition, server },
        )
    }
}

/// The order of tool names after `tools` were listed.
pub open spec fn order_with_tools<P>(order: Seq<Seq<char>>, tools: Seq<Tool<P>>) -> Seq<Seq<char>>
    decreases tools.len(),
{
    if tools.len() == 0 {
        order
    } else {
        order_with(order_with_tools(order, tools.drop_last()), tools.last().name@)
    }
}

/// Whether one of `tools` has this name.
pub open spec fn lists<P>(tools: Seq<Tool<P>>, name: Seq<char>) -> bool {
    exists|i: int| 0 <= i < tools.len() && #[trigger] tools[i].name@ == name
}

/// After a server listed its tools, exactly these names are known: those that were known
/// and those that it listed. The listed ones belong to the server, each with the last
/// definition that the server gave under the name, and the others are as they were.
pub proof fn law_latest_listing_wins<P>(
    known: Map<Seq<char>, ToolView<P>>,
    server: Seq<char>,
    tools: Seq<Tool<P>>,
    name: Seq<char>,
)
    ensures
        with_tools(known, server, tools).contains_key(name) <==> known.contains_key(name) || lists(
            tools,
            name,
        ),
        lists(tools, name) ==> with_tools(known, server, tools)[name].server == server,
        !lists(tools, name) && known.contains_key(name) ==> with_tools(known, server, tools)[name]
            == known[name],
        forall|i: int|
            0 <= i < tools.len() && #[trigger] tools[i].name@ == name && (forall|j: int|
                i < j < tools.len() ==> #[trigger] tools[j].name@ != name) ==> with_tools(
                known,
                server,
                tools,
            )[name].definition == tools[i].definition,
    decreases tools.len(),
{
    if tools.len() > 0 {
        let shorter = tools.drop_last();
        law_latest_listing_wins(known, server, shorter, name);
        let last = tools.len() - 1;
        assert(lists(tools, name) <==> lists(shorter, name) || tools[last].name@ == name) by {
            if lists(tools, name) {
                let i = choose|i: int| 0 <= i < tools.len() && #[trigger] tools[i].name@ == name;
                if i < last {
                    assert(shorter[i].name@ == name);
                }
            }
            if lists(shorter, name) {
                let i = choose|i: int|
                    0 <= i < shorter.len() && #[trigger] shorter[i].name@ == name;
                assert(tools[i].name@ == name);
            }
        }
        assert forall|i: int|
            0 <= i < tools.len() && #[trigger] tools[i].name@ == name && (forall|j: int|
                i < j < tools.len() ==> #[trigger] tools[j].name@ != name) implies with_tools(
            known,
            server,
            tools,
        )[name].definition == tools[i].definition by {
            if i < last {
                assert(tools[last].name@ != name);
                assert(shorter[i].name@ == name);
                assert forall|j: int| i < j < shorter.len() implies #[trigger] shorter[j].name@
                    != name by {
                    assert(tools[j].name@ != name);
                }
            }
        }
    }
}

/// Whether one of `tools` has this name and this definition.
pub open spec fn defines<P>(tools: Seq<Tool<P>>, name: Seq<char>, definition: P) -> bool {
    exists|i: int|
        0 <= i < tools.len() && (#[trigger] tools[i]).name@ == name && tools[i].definition
            == definition
}

/// The definition under which a listed tool is known is one that the server listed for it.
pub proof fn law_definitions_are_as_listed<P>(
    known: Map<Seq<char>, ToolView<P>>,
    server: Seq<char>,
    tools: Seq<Tool<P>>,
    name: Seq<char>,
)
    requires
        lists(tools, name),
    ensures
        defines(tools, name, with_tools(known, server, tools)[name].definition),
    decreases tools.len(),
{
    let last = tools.len() - 1;
    if tools[last].name@ != name {
        let shorter = tools.drop_last();
        let i = choose|i: int| 0 <= i < tools.len() && #[trigger] tools[i].name@ == name;
        assert(shorter[i].name@ == name);
        law_definitions_are_as_listed(known, server, shorter, name);
        let definition = with_tools(known, server, tools)[name].definition;
        let j = choose|j: int|
            0 <= j < shorter.len() && (#[trigger] shorter[j]).name@ == name
                && shorter[j].definition == definition;
        assert(tools[j].name@ == name);
    }
}

/// The last place at which `tools` has the name that it has at place `i`.
proof fn lemma_last_of_name<P>(tools: Seq<Tool<P>>, i: int) -> (last: int)
    requires
        0 <= i < tools.len(),
    ensures
        i <= last < tools.len(),
        tools[last].name@ == tools[i].name@,
        forall|k: int| last < k < tools.len() ==> (#[trigger] tools[k]).name@ != tools[i].name@,
    decreases tools.len(),
{
    let end = tools.len() - 1;
    if tools[end].name@ == tools[i].name@ {
        end
    } else {
        let shorter = tools.drop_last();
        let last = lemma_last_of_name(shorter, i);
        assert forall|k: int| last < k < tools.len() implies (#[trigger] tools[k]).name@
            != tools[i].name@ by {
            if k < end {
                assert(shorter[k].name@ != shorter[i].name@);
            }
        }
        last
    }
}

/// After a listing was taken in, every tool of it is known, however many there are: under
/// its name, as one of the server, with the definition that the listing gives last under the
/// name. The name has a place in the order.
pub proof fn law_every_listed_tool_is_taken_in<P>(
    known: Map<Seq<char>, ToolView<P>>,
    order: Seq<Seq<char>>,
    server: Seq<char>,
    tools: Vec<Tool<P>>,
    i: int,
)
    requires
        0 <= i < tools@.len(),
    ensures
        ({
            let brought = discovered(Discovery::Listed(tools));
            let after = with_tools(known, server, brought);
            let name = tools@[i].name@;
            &&& after.contains_key(name)
            &&& after[name].server == server
            &&& exists|last: int|
                {
                    &&& i <= last < tools@.len()
                    &&& (#[trigger] tools@[last]).name@ == name
                    &&& after[name].definition == tools@[last].definition
                    &&& forall|k: int|
                        last < k < tools@.len() ==> (#[trigger] tools@[k]).name@ != name
                }
            &&& order_with_tools(order, brought).contains(name)
        }),
{
    let all = tools@;
    let name = all[i].name@;
    let last = lemma_last_of_name(all, i);
    law_latest_listing_wins(known, server, all, name);
    assert(lists(all, name));
    assert(all[last].name@ == name);
    assert forall|j: int| last < j < all.len() implies #[trigger] all[j].name@ != name by {
        assert(all[j].name@ != all[i].name@);
    }
    law_names_keep_their_places(order, all, Seq::empty(), name);
}

/// Taking in a listing leaves every tool that the listing does not name as it was: one that
/// was known stays, with its definition and its server, and one that was not is not.
pub proof fn law_other_tools_are_left_alone<P>(
    known: Map<Seq<char>, ToolView<P>>,
    server: Seq<char>,
    tools: Vec<Tool<P>>,
    name: Seq<char>,
)
    requires
        forall|i: int| 0 <= i < tools@.len() ==> (#[trigger] tools@[i]).name@ != name,
    ensures
        ({
            let after = with_tools(known, server, discovered(Discovery::Listed(tools)));
            &&& after.contains_key(name) <==> known.contains_key(name)
            &&& known.contains_key(name) ==> after[name] == known[name]
        }),
{
    law_latest_listing_wins(known, server, tools@, name);
}

/// A page brings the tools that it holds, all of them and in their order, and leads on to
/// its own cursor. A reply that is no page brings nothing, changes nothing and ends the
/// listing.
pub proof fn law_pages_bring_their_tools<P>(
    known: Map<Seq<char>, ToolView<P>>,
    order: Seq<Seq<char>>,
    server: Seq<char>,
    reply: PageReply<P>,
)
    ensures
        match reply {
            PageReply::Page { tools, next_cursor } => {
                &&& discovery_of(reply) == Discovery::Listed(tools)
                &&& discovered(discovery_of(reply)) == tools@
                &&& reply_tools(reply) == tools@
                &&& match next_cursor {
                    Some(cursor) => listing_after(reply) == ListingView::After(cursor@),
                    None => listing_after(reply) is Finished,
                }
            },
            _ => {
                &&& !(discovery_of(reply) is Listed)
                &&& with_tools(known, server, discovered(discovery_of(reply))) == known
                &&& order_with_tools(order, discovered(discovery_of(reply))) == order
                &&& reply_tools(reply).len() == 0
                &&& listing_after(reply) is Finished
            },
        },
        reply is Failed <==> discovery_of(reply) is Failed,
        reply is TimedOut <==> discovery_of(reply) is TimedOut,
        reply is ClientTaken <==> discovery_of(reply) is ClientTaken,
{
}

/// After a page was taken in, every tool that it holds is known and belongs to the server.
pub proof fn law_every_tool_of_a_page_is_taken_in<P>(
    known: Map<Seq<char>, ToolView<P>>,
    server: Seq<char>,
    tools: Vec<Tool<P>>,
    next_cursor: Option<String>,
    i: int,
)
    requires
        0 <= i < tools@.len(),
    ensures
        ({
            let reply = PageReply::Page { tools, next_cursor };
            let after = with_tools(known, server, discovered(discovery_of(reply)));
            let name = tools@[i].name@;
            &&& after.contains_key(name)
            &&& after[name].server == server
            &&& exists|j: int|
                i <= j < tools@.len() && (#[trigger] tools@[j]).name@ == name
                    && after[name].definition == tools@[j].definition
        }),
{
    law_every_listed_tool_is_taken_in(known, Seq::empty(), server, tools, i);
    let after = with_tools(known, server, tools@);
    let name = tools@[i].name@;
    let j = choose|last: int|
        {
            &&& i <= last < tools@.len()
            &&& (#[trigger] tools@[last]).name@ == name
            &&& after[name].definition == tools@[last].definition
            &&& forall|k: int| last < k < tools@.len() ==> (#[trigger] tools@[k]).name@ != name
        };
    assert(tools@[j].name@ == name);
}

/// What is known of one tool depends on no other: two histories that agree on a name agree
/// on it after the same listing.
pub proof fn law_listings_act_on_each_name_alone<P>(
    one: Map<Seq<char>, ToolView<P>>,
    two: Map<Seq<char>, ToolView<P>>,
    server: Seq<char>,
    tools: Seq<Tool<P>>,
    name: Seq<char>,
)
    requires
        one.contains_key(name) == two.contains_key(name),
        one.contains_key(name) ==> one[name] == two[name],
    ensures
        ({
            let after_one = with_tools(one, server, tools);
            let after_two = with_tools(two, server, tools);
            &&& after_one.contains_key(name) == after_two.contains_key(name)
            &&& after_one.contains_key(name) ==> after_one[name] == after_two[name]
        }),
    decreases tools.len(),
{
    if tools.len() > 0 {
        law_listings_act_on_each_name_alone(one, two, server, tools.drop_last(), name);
    }
}

/// A listing goes on reply by reply. It begins at the first page with no tool. While it is
/// not over, a page adds its own tools behind those that came before and leads on to its own
/// cursor, and any other reply ends it. Once it is over, no reply changes it.
pub proof fn law_listings_go_on_reply_by_reply<P>(replies: Seq<PageReply<P>>, reply: PageReply<P>)
    ensures
        listing_run(Seq::<PageReply<P>>::empty()) is First,
        listing_tools(Seq::<PageReply<P>>::empty()).len() == 0,
        ({
            let longer = replies.push(reply);
            if listing_run(replies) is Finished {
                &&& listing_run(longer) is Finished
                &&& listing_tools(longer) == listing_tools(replies)
            } else {
                match reply {
                    PageReply::Page { tools, next_cursor: Some(cursor) } => {
                        &&& listing_run(longer) == ListingView::After(cursor@)
                        &&& listing_tools(longer) == listing_tools(replies) + tools@
                    },
                    PageReply::Page { tools, next_cursor: None } => {
                        &&& listing_run(longer) is Finished
                        &&& listing_tools(longer) == listing_tools(replies) + tools@
                    },
                    _ => {
                        &&& listing_run(longer) is Finished
                        &&& listing_tools(longer) == listing_tools(replies)
                    },
                }
            }
        }),
{
    assert(replies.push(reply).drop_last() =~= replies);
}

/// A tool keeps the place that it got first, and a listing adds just the names that it
/// holds, behind those that were there.
pub proof fn law_names_keep_their_places<P>(
    order: Seq<Seq<char>>,
    tools: Seq<Tool<P>>,
    more: Seq<Tool<P>>,
    name: Seq<char>,
)
    ensures
        ({
            let after = order_with_tools(order, tools);
            let later = order_with_tools(order, tools + more);
            &&& order.is_prefix_of(after)
            &&& after.is_prefix_of(later)
            &&& after.len() <= order.len() + tools.len()
            &&& after.contains(name) <==> order.contains(name) || exists|i: int|
                0 <= i < tools.len() && (#[trigger] tools[i]).name@ == name
            &&& order.no_duplicates() ==> after.no_duplicates()
        }),
    decreases more.len(), tools.len(),
{
    if more.len() > 0 {
        law_names_keep_their_places(order, tools, more.drop_last(), name);
        assert((tools + more).drop_last() =~= tools + more.drop_last());
    } else {
        assert(tools + more =~= tools);
        if tools.len() > 0 {
            let shorter = tools.drop_last();
            let last = tools.len() - 1;
            law_names_keep_their_places(order, shorter, more, name);
            assert(shorter + more =~= shorter);
            let before = order_with_tools(order, shorter);
            let after = order_with_tools(order, tools);
            assert(tools[last] == tools.last());
            if !before.contains(tools[last].name@) {
                assert(after == before.push(tools[last].name@));
                assert(after[before.len() as int] == tools[last].name@);
                if before.contains(name) {
                    assert(after[before.index_of(name)] == name);
                }
                if after.contains(name) && name != tools[last].name@ {
                    assert(before[after.index_of(name)] == name);
                }
            }
            assert(forall|i: int|
                0 <= i < shorter.len() ==> (#[trigger] shorter[i]) == tools[i]);
            if exists|i: int| 0 <= i < tools.len() && (#[trigger] tools[i]).name@ == name {
                let i = choose|i: int| 0 <= i < tools.len() && (#[trigger] tools[i]).name@ == name;
                if i < last {
                    assert(shorter[i].name@ == name);
                }
            }
            if exists|i: int| 0 <= i < shorter.len() && (#[trigger] shorter[i]).name@ == name {
                let i = choose|i: int|
                    0 <= i < shorter.len() && (#[trigger] shorter[i]).name@ == name;
                assert(tools[i].name@ == name);
            }
        }
    }
}

/// What the laws call listing a name and giving it a definition is to hold a tool of that
/// name, and one of that definition.
pub proof fn law_listing_is_holding<P>(tools: Seq<Tool<P>>, i: int, record: ToolRecord<P>)
    ensures
        0 <= i < tools.len() ==> lists(tools, tools[i].name@) && defines(
            tools,
            tools[i].name@,
            tools[i].definition,
        ),
        record@.definition == record.definition,
        record@.server == record.server@,
{
    if 0 <= i < tools.len() {
        assert(tools[i].name@ == tools[i].name@);
    }
}

/// The tools that are known, each under its name.
pub struct ToolStore<P> {
    table: NameTable<ToolRecord<P>>,
}

impl<P> View for ToolStore<P> {
    type V = Map<Seq<char>, ToolView<P>>;

    closed spec fn view(&self) -> Map<Seq<char>, ToolView<P>> {
        self.table@.map_values(|record: ToolRecord<P>| record@)
    }
}

impl<P> ToolStore<P> {
    /// The names of the tools, in the order in which they became known.
    pub closed spec fn order(&self) -> Seq<Seq<char>> {
        self.table.order()
    }

    /// A store in which no tool is known.
    pub fn new() -> (store: Self)
        ensures
            store@ == Map::<Seq<char>, ToolView<P>>::empty(),
            store.order() == Seq::<Seq<char>>::empty(),
    {
        let store = ToolStore { table: NameTable::new() };
        assert(store@ =~= Map::<Seq<char>, ToolView<P>>::empty());
        store
    }

    /// The tool of this name.
    pub fn get(&self, name: &str) -> (record: Option<&ToolRecord<P>>)
        ensures
            record is Some <==> self@.contains_key(name@),
            record matches Some(r) ==> r@ == self@[name@],
    {
        self.table.get(name)
    }

    /// Takes in what came of asking `server` for its tools. Only a listing changes what
    /// is known.
    pub fn record(&mut self, server: &str, discovery: Discovery<P>)
        ensures
            final(self)@ == with_tools(old(self)@, server@, discovered(discovery)),
            final(self).order() == order_with_tools(old(self).order(), discovered(discovery)),
            discovery matches Discovery::Listed(tools) ==> forall|i: int|
                0 <= i < tools@.len() ==> {
                    &&& final(self)@.contains_key((#[trigger] tools@[i]).name@)
                    &&& final(self)@[tools@[i].name@].server == server@
                },
            !(discovery is Listed) ==> final(self)@ == old(self)@ && final(self).order() == old(
                self,
            ).order(),
    {
        match discovery {
            Discovery::Listed(tools) => {
                let ghost all = tools@;
                let ghost listing = tools;
                assert(all.take(0) =~= Seq::empty());
                for tool in rest: tools
                    invariant
                        all == tools@,
                        rest.seq() == tools@,
                        self@ == with_tools(old(self)@, server@, all.take(rest.index() as int)),
                        self.order() == order_with_tools(
                            old(self).order(),
                            all.take(rest.index() as int),
                        ),
                {
                    let ghost before = self@;
                    proof {
                        let i = rest.index() as int;
                        assert(all.take(i + 1).drop_last() =~= all.take(i));
                        assert(all.take(i + 1).last() == tool);
                    }
                    let record = ToolRecord {
                        definition: tool.definition,
                        server: server.to_owned(),
                    };
                    self.table.insert(tool.name, record);
                    assert(self@ =~= before.insert(tool.name@, record@));
                }
                assert(all.take(all.len() as int) =~= all);
                assert forall|i: int| 0 <= i < all.len() implies {
                    &&& self@.contains_key((#[trigger] all[i]).name@)
                    &&& self@[all[i].name@].server == server@
                } by {
                    law_every_listed_tool_is_taken_in(
                        old(self)@,
                        old(self).order(),
                        server@,
                        listing,
                        i,
                    );
                }
            },
            Discovery::Failed => {},
            Discovery::TimedOut => {},
            Discovery::ClientTaken => {},
        }
    }

    /// The definitions of the known tools, in the order in which the tools became known:
    /// one for each name.
    pub fn definitions(&self) -> (definitions: Vec<&P>)
        ensures
            self.order().no_duplicates(),
            forall|name: Seq<char>|
                self@.contains_key(name) <==> #[trigger] self.order().contains(name),
            definitions@.len() == self.order().len(),
            forall|i: int|
                0 <= i < definitions@.len() ==> *(#[trigger] definitions@[i])
                    == self@[self.order()[i]].definition,
    {
        let mut definitions: Vec<&P> = Vec::new();
        let count: usize = self.table.len();
        let mut i: usize = 0;
        while i < count
            invariant
                i <= count,
                count == self.order().len(),
                definitions@.len() == i,
                forall|j: int|
                    0 <= j < i ==> *(#[trigger] definitions@[j])
                        == self@[self.order()[j]].definition,
            decreases count - i,
        {
            definitions.push(&self.table.value_at(i).definition);
            i = i + 1;
        }
        proof {
            use_type_invariant(&self.table);
            self.table.lemma_order();
        }
        definitions
    }
}

} // verus!
