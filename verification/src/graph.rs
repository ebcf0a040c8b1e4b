//! Microsoft Graph addressing and paging: request URLs, and the collection
//! of all pages of a collection endpoint by following `@odata.nextLink`.
use vstd::prelude::*;
use crate::json::JsonValue;
use crate::text::{owned, strip_prefix, trim, trimmed};

verus! {

/// Base URL of the Graph v1.0 API.
pub open spec fn graph_base() -> Seq<char> {
    "https://graph.microsoft.com/v1.0"@
}

/// The full URL of a Graph path.
pub fn graph_url(path: &str) -> (r: String)
    ensures
        r@ == graph_base() + path@,
{
    let mut u = owned("https://graph.microsoft.com/v1.0");
    u.append(path);
    u
}

/// The error of a Graph request answered with an unsuccessful status: the
/// status as shown and the answer's body without surrounding white space.
pub fn request_failure_message(status: &str, body: &str) -> (r: String)
    ensures
        r@ == "Graph request failed: "@ + status@ + " \u{2013} "@ + trimmed(body@),
{
    let mut m = owned("Graph request failed: ");
    m.append(status);
    m.append(" \u{2013} ");
    let b = trim(body);
    m.append(b.as_str());
    m
}

/// The `@odata.nextLink` of a page, when it is a text.
pub open spec fn next_link(page: JsonValue) -> Option<Seq<char>> {
    page.field("@odata.nextLink"@).str_value()
}

/// The path to request for a next link: the link without the Graph base
/// URL when it starts with it, otherwise the link itself.
pub open spec fn link_path(link: Seq<char>) -> Seq<char> {
    if graph_base().is_prefix_of(link) { link.skip(graph_base().len() as int) } else { link }
}

/// The items of all pages read so far, and where the next page is.
pub struct Pager {
    pub items: Vec<JsonValue>,
    pub next: Option<String>,
}

impl Pager {
    pub open spec fn next_view(self) -> Option<Seq<char>> {
        match self.next {
            Some(l) => Some(l@),
            None => None,
        }
    }

    /// Starts from the first page: its `value` items and its next link.
    pub fn start(first: JsonValue) -> (r: Pager)
        ensures
            r.items@ == first.items_of("value"@),
            r.next_view() == next_link(first),
    {
        let next = match first.str_at("@odata.nextLink") {
            Some(l) => Some(owned(l)),
            None => None,
        };
        let items = first.into_items("value");
        Pager { items, next }
    }

    /// The path of the next page to fetch, if there is one.
    pub fn next_path(&self) -> (r: Option<String>)
        ensures
            match self.next_view() {
                Some(l) => r matches Some(p) && p@ == link_path(l),
                None => r is None,
            },
    {
        match &self.next {
            Some(link) => match strip_prefix(link.as_str(), "https://graph.microsoft.com/v1.0") {
                Some(rest) => Some(rest),
                None => Some(link.clone()),
            },
            None => None,
        }
    }

    /// Adds a further page: its `value` items go after those read so far,
    /// and its next link replaces the previous one.
    pub fn absorb(&mut self, page: JsonValue)
        ensures
            final(self).items@ == old(self).items@ + page.items_of("value"@),
            final(self).next_view() == next_link(page),
    {
        let next = match page.str_at("@odata.nextLink") {
            Some(l) => Some(owned(l)),
            None => None,
        };
        let mut more = page.into_items("value");
        self.items.append(&mut more);
        self.next = next;
    }

    /// All items read.
    pub fn into_items(self) -> (r: Vec<JsonValue>)
        ensures
            r@ == self.items@,
    {
        self.items
    }
}

/// The items of a run of pages, in page order.
pub open spec fn all_items(pages: Seq<JsonValue>) -> Seq<JsonValue>
    decreases pages.len(),
{
    if pages.len() == 0 {
        Seq::empty()
    } else {
        all_items(pages.drop_last()) + pages.last().items_of("value"@)
    }
}

/// Law: when the pager is started on the first page and given every further
/// page in order (`held[k]` being its items after the k-th call, as `start`
/// and `absorb` state them), it ends holding the `value` items of all pages,
/// in page order.
pub proof fn lemma_paging_collects_all(pages: Seq<JsonValue>, held: Seq<Seq<JsonValue>>)
    requires
        pages.len() > 0,
        held.len() == pages.len(),
        held[0] == pages[0].items_of("value"@),
        forall|k: int| 1 <= k < pages.len() ==> #[trigger] held[k] == held[k - 1] + pages[k].items_of("value"@),
    ensures
        held.last() == all_items(pages),
    decreases pages.len(),
{
    if pages.len() == 1 {
        assert(pages.drop_last() =~= Seq::<JsonValue>::empty());
        assert(all_items(pages) == all_items(pages.drop_last()) + pages[0].items_of("value"@));
        assert(Seq::<JsonValue>::empty() + pages[0].items_of("value"@) =~= pages[0].items_of("value"@));
    } else {
        let n = pages.len() as int;
        assert forall|k: int| 1 <= k < n - 1 implies #[trigger] held.drop_last()[k] == held.drop_last()[k - 1] + pages.drop_last()[k].items_of("value"@) by {
            assert(held[k] == held[k - 1] + pages[k].items_of("value"@));
        }
        lemma_paging_collects_all(pages.drop_last(), held.drop_last());
        assert(held[n - 1] == held[n - 2] + pages[n - 1].items_of("value"@));
    }
}

} // verus!
