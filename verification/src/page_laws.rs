//! What the pages of the share hold.

use crate::access_laws;
use crate::dav_laws;
use crate::escape;
use crate::key_laws;
use crate::keys::{self, PUBLIC_SHARE_ROOT};
use crate::model::{PathItemView, PathType};
use crate::numbers;
use crate::pages::{self, SHARE_PAGE_HEAD};
use crate::reply::BodyView;
use crate::sort::{self, SortKey};
use crate::text::{self, Text};
use crate::text_laws;
use vstd::prelude::*;
use vstd::utf8::*;

verus! {

// ---------------------------------------------------------------------------
// Text that starts no script
// ---------------------------------------------------------------------------

/// The tag at `at`, whose `<` stands there, is told within `s` to be none of a script.
spec fn is_other_tag(s: Text, at: int) -> bool {
    &&& at + 2 < s.len()
    &&& !(text::ascii_lower(s[at + 1]) == 's' && text::ascii_lower(s[at + 2]) == 'c')
}

/// Every tag in `s` is told within `s` to be none of a script. Such pieces can be put together.
spec fn starts_no_script(s: Text) -> bool {
    forall|i: int| 0 <= i < s.len() && #[trigger] s[i] == '<' ==> is_other_tag(s, i)
}

/// The same of what stands from `i` on, one character after another.
spec fn starts_no_script_from(s: Text, i: int) -> bool
    decreases s.len() - i,
{
    if 0 <= i < s.len() {
        (s[i] == '<' ==> is_other_tag(s, i)) && starts_no_script_from(s, i + 1)
    } else {
        true
    }
}

proof fn lemma_from(s: Text, i: int)
    requires
        0 <= i,
        starts_no_script_from(s, i),
    ensures
        forall|j: int| i <= j < s.len() && #[trigger] s[j] == '<' ==> is_other_tag(s, j),
    decreases s.len() - i,
{
    if i < s.len() {
        lemma_from(s, i + 1);
    }
}

proof fn lemma_together(a: Text, b: Text)
    requires
        starts_no_script(a),
        starts_no_script(b),
    ensures
        starts_no_script(a + b),
{
    let all = a + b;
    assert forall|i: int| 0 <= i < all.len() && #[trigger] all[i] == '<' implies is_other_tag(
        all,
        i,
    ) by {
        if i < a.len() {
            assert(a[i] == '<');
            assert(is_other_tag(a, i));
        } else {
            assert(b[i - a.len()] == '<');
            assert(is_other_tag(b, i - a.len()));
        }
    }
}

proof fn lemma_escaped(s: Text)
    ensures
        starts_no_script(escape::html_escaped(s)),
{
    escape::law_escaped_text_holds_no_markup(s);
    let escaped = escape::html_escaped(s);
    assert forall|i: int| 0 <= i < escaped.len() implies #[trigger] escaped[i] != '<' by {
        assert(!escape::is_markup(escaped[i]));
    }
}

proof fn lemma_number(n: nat)
    ensures
        starts_no_script(numbers::decimal(n)),
    decreases n,
{
    if n >= 10 {
        lemma_number(n / 10);
        assert(numbers::decimal(n) =~= numbers::decimal(n / 10) + seq![numbers::digit(n % 10)]);
        lemma_together(numbers::decimal(n / 10), seq![numbers::digit(n % 10)]);
    }
}

/// Text that starts no script holds no tag of one, in letters of any case.
proof fn lemma_holds_no_script(s: Text)
    requires
        starts_no_script(s),
    ensures
        !text::occurs_in(text::lower_text(s), "<script"@),
{
    reveal_strlit("<script");
    let lower = text::lower_text(s);
    assert forall|at: int| !text::occurs_at(lower, "<script"@, at) by {
        if text::occurs_at(lower, "<script"@, at) {
            let found = lower.subrange(at, at + 7);
            assert(found[0] == '<' && found[1] == 's' && found[2] == 'c');
            assert(lower[at] == '<' && lower[at + 1] == 's' && lower[at + 2] == 'c');
            assert(s[at] == '<');
            assert(is_other_tag(s, at));
        }
    }
}

// ---------------------------------------------------------------------------
// The pieces of the page
// ---------------------------------------------------------------------------

proof fn lemma_head()
    ensures
        starts_no_script(SHARE_PAGE_HEAD@),
{
    let head = SHARE_PAGE_HEAD@;
    reveal_strlit(
        "<!doctype html>\n<html lang=\"en\"><head><meta charset=\"utf-8\"><meta name=\"viewport\" content=\"width=device-width, initial-scale=1\">\n<title>Public share</title><style>\nbody{font:16px system-ui,sans-serif;max-width:860px;margin:3rem auto;padding:0 1rem;color:#1f2937}\nh1{font-size:1.5rem;margin-bottom:.25rem}p{color:#4b5563}ul{list-style:none;padding:0;border-top:1px solid #e5e7eb}\nli{display:grid;grid-template-columns:minmax(0,1fr) auto auto;gap:.75rem;align-items:center;padding:.7rem .25rem;border-bottom:1px solid #e5e7eb}\nli.parent{grid-template-columns:minmax(0,1fr) auto}.name{min-width:0;overflow-wrap:anywhere}\na{color:#2563eb;text-decoration:none}a:hover{text-decoration:underline}.meta{color:#6b7280;white-space:nowrap}\n.download{border:1px solid #cbd5e1;border-radius:6px;padding:.25rem .55rem;white-space:nowrap}.download:hover{background:#eff6ff;text-decoration:none}\n@media (max-width:520px){li{grid-template-columns:minmax(0,1fr) auto;gap:.35rem .75rem}.meta{grid-column:1;grid-row:2}.download{grid-column:2;grid-row:1 / span 2}li.parent .meta{grid-column:2;grid-row:1}}\n</style></head><body><main><h1>Public share</h1><p>Read-only files in <code>",
    );
    reveal_with_fuel(starts_no_script_from, 91);
    assert(starts_no_script_from(head, 1080));
    assert(starts_no_script_from(head, 990));
    assert(starts_no_script_from(head, 900));
    assert(starts_no_script_from(head, 810));
    assert(starts_no_script_from(head, 720));
    assert(starts_no_script_from(head, 630));
    assert(starts_no_script_from(head, 540));
    assert(starts_no_script_from(head, 450));
    assert(starts_no_script_from(head, 360));
    assert(starts_no_script_from(head, 270));
    assert(starts_no_script_from(head, 180));
    assert(starts_no_script_from(head, 90));
    assert(starts_no_script_from(head, 0));
    lemma_from(head, 0);
}

proof fn lemma_row_markup()
    ensures
        starts_no_script("<li><a class=\"name\" href=\""@),
        starts_no_script("\">"@),
        starts_no_script("/</a><span class=\"meta\">folder</span></li>"@),
        starts_no_script("</a><span class=\"meta\">"@),
        starts_no_script(" bytes</span><a class=\"download\" href=\""@),
        starts_no_script("\" download aria-label=\""@),
        starts_no_script("\">Download</a></li>"@),
{
    reveal_strlit("<li><a class=\"name\" href=\"");
    reveal_strlit("\">");
    reveal_strlit("/</a><span class=\"meta\">folder</span></li>");
    reveal_strlit("</a><span class=\"meta\">");
    reveal_strlit(" bytes</span><a class=\"download\" href=\"");
    reveal_strlit("\" download aria-label=\"");
    reveal_strlit("\">Download</a></li>");
    reveal_with_fuel(starts_no_script_from, 91);
    assert(starts_no_script_from("<li><a class=\"name\" href=\""@, 0));
    lemma_from("<li><a class=\"name\" href=\""@, 0);
    assert(starts_no_script_from("\">"@, 0));
    lemma_from("\">"@, 0);
    assert(starts_no_script_from("/</a><span class=\"meta\">folder</span></li>"@, 0));
    lemma_from("/</a><span class=\"meta\">folder</span></li>"@, 0);
    assert(starts_no_script_from("</a><span class=\"meta\">"@, 0));
    lemma_from("</a><span class=\"meta\">"@, 0);
    assert(starts_no_script_from(" bytes</span><a class=\"download\" href=\""@, 0));
    lemma_from(" bytes</span><a class=\"download\" href=\""@, 0);
    assert(starts_no_script_from("\" download aria-label=\""@, 0));
    lemma_from("\" download aria-label=\""@, 0);
    assert(starts_no_script_from("\">Download</a></li>"@, 0));
    lemma_from("\">Download</a></li>"@, 0);
}

proof fn lemma_list_markup()
    ensures
        starts_no_script("<li class=\"parent\"><a class=\"name\" href=\""@),
        starts_no_script("\">../</a><span class=\"meta\">parent folder</span></li>"@),
        starts_no_script("<li class=\"empty\"><span>This folder is empty.</span></li>"@),
        starts_no_script("</code></p><ul>"@),
        starts_no_script("</ul></main></body></html>"@),
{
    reveal_strlit("<li class=\"parent\"><a class=\"name\" href=\"");
    reveal_strlit("\">../</a><span class=\"meta\">parent folder</span></li>");
    reveal_strlit("<li class=\"empty\"><span>This folder is empty.</span></li>");
    reveal_strlit("</code></p><ul>");
    reveal_strlit("</ul></main></body></html>");
    reveal_with_fuel(starts_no_script_from, 91);
    assert(starts_no_script_from("<li class=\"parent\"><a class=\"name\" href=\""@, 0));
    lemma_from("<li class=\"parent\"><a class=\"name\" href=\""@, 0);
    assert(starts_no_script_from("\">../</a><span class=\"meta\">parent folder</span></li>"@, 0));
    lemma_from("\">../</a><span class=\"meta\">parent folder</span></li>"@, 0);
    assert(starts_no_script_from("<li class=\"empty\"><span>This folder is empty.</span></li>"@, 0));
    lemma_from("<li class=\"empty\"><span>This folder is empty.</span></li>"@, 0);
    assert(starts_no_script_from("</code></p><ul>"@, 0));
    lemma_from("</code></p><ul>"@, 0);
    assert(starts_no_script_from("</ul></main></body></html>"@, 0));
    lemma_from("</ul></main></body></html>"@, 0);
}

proof fn lemma_row(key: Text, item: PathItemView)
    ensures
        starts_no_script(pages::share_row(key, item)),
{
    let dir = item.path_type == PathType::Dir;
    let href = keys::href_of(keys::joined_key(key, item.name), dir);
    let label = "Download "@ + item.name;
    lemma_row_markup();
    lemma_escaped(href);
    lemma_escaped(item.name);
    lemma_escaped(label);
    lemma_number(item.size as nat);
    let linked = "<li><a class=\"name\" href=\""@ + escape::html_escaped(href);
    lemma_together("<li><a class=\"name\" href=\""@, escape::html_escaped(href));
    lemma_together(linked, "\">"@);
    let named = linked + "\">"@ + escape::html_escaped(item.name);
    lemma_together(linked + "\">"@, escape::html_escaped(item.name));
    if dir {
        lemma_together(named, "/</a><span class=\"meta\">folder</span></li>"@);
    } else {
        let sized = named + "</a><span class=\"meta\">"@ + numbers::decimal(item.size as nat);
        lemma_together(named, "</a><span class=\"meta\">"@);
        lemma_together(
            named + "</a><span class=\"meta\">"@,
            numbers::decimal(item.size as nat),
        );
        let offered = sized + " bytes</span><a class=\"download\" href=\""@
            + escape::html_escaped(href);
        lemma_together(sized, " bytes</span><a class=\"download\" href=\""@);
        lemma_together(
            sized + " bytes</span><a class=\"download\" href=\""@,
            escape::html_escaped(href),
        );
        let labelled = offered + "\" download aria-label=\""@ + escape::html_escaped(label);
        lemma_together(offered, "\" download aria-label=\""@);
        lemma_together(offered + "\" download aria-label=\""@, escape::html_escaped(label));
        lemma_together(labelled, "\">Download</a></li>"@);
    }
}

proof fn lemma_rows(key: Text, items: Seq<PathItemView>)
    ensures
        starts_no_script(pages::share_rows(key, items)),
    decreases items.len(),
{
    if items.len() > 0 {
        lemma_rows(key, items.drop_last());
        lemma_row(key, items.last());
        lemma_together(
            pages::share_rows(key, items.drop_last()),
            pages::share_row(key, items.last()),
        );
    }
}

proof fn lemma_parent_row(key: Text)
    ensures
        starts_no_script(pages::parent_row(key)),
{
    if key != PUBLIC_SHARE_ROOT@ {
        let parent = text::before_last(key, '/').unwrap_or(PUBLIC_SHARE_ROOT@);
        let href = escape::html_escaped(keys::href_of(parent, true));
        lemma_list_markup();
        lemma_escaped(keys::href_of(parent, true));
        lemma_together("<li class=\"parent\"><a class=\"name\" href=\""@, href);
        lemma_together(
            "<li class=\"parent\"><a class=\"name\" href=\""@ + href,
            "\">../</a><span class=\"meta\">parent folder</span></li>"@,
        );
    }
}

proof fn lemma_page(key: Text, items: Seq<PathItemView>)
    ensures
        starts_no_script(pages::share_page(key, items)),
{
    let ordered = sort::sorted(items, SortKey::Name);
    let place = escape::html_escaped(keys::href_of(key, true));
    let list = pages::share_list(key, items);
    lemma_head();
    lemma_list_markup();
    lemma_escaped(keys::href_of(key, true));
    lemma_parent_row(key);
    lemma_rows(key, ordered);
    lemma_together(pages::parent_row(key), pages::share_rows(key, ordered));
    assert(starts_no_script(list));
    let top = SHARE_PAGE_HEAD@ + place + "</code></p><ul>"@;
    lemma_together(SHARE_PAGE_HEAD@, place);
    lemma_together(SHARE_PAGE_HEAD@ + place, "</code></p><ul>"@);
    lemma_together(top, list);
    lemma_together(top + list, "</ul></main></body></html>"@);
}

// ---------------------------------------------------------------------------
// The page
// ---------------------------------------------------------------------------

/// The page of a shared directory holds no script, whatever the directory and its entries are
/// named. A request for the headers alone gets the same headers, the length of the page among them,
/// and no body.
pub proof fn law_shared_pages_hold_no_script(key: Text, items: Seq<PathItemView>)
    ensures
        !text::occurs_in(text::lower_text(pages::share_page(key, items)), "<script"@),
        ({
            let page = encode_utf8(pages::share_page(key, items));
            let whole = pages::share_page_reply(key, items, false);
            let headers = pages::share_page_reply(key, items, true);
            &&& whole.status == 200
            &&& whole.body == BodyView::Bytes(page)
            &&& headers.status == 200
            &&& headers.body == BodyView::Empty
            &&& headers.headers == whole.headers
            &&& access_laws::has_header(
                whole,
                "content-length"@,
                numbers::decimal(page.len()),
            )
        }),
{
    lemma_page(key, items);
    lemma_holds_no_script(pages::share_page(key, items));
    let page = encode_utf8(pages::share_page(key, items));
    assert(pages::share_page_reply(key, items, false).headers[1] == (
        "content-length"@,
        numbers::decimal(page.len()),
    ));
}

// ---------------------------------------------------------------------------
// What the page shows
// ---------------------------------------------------------------------------

/// The row leads to the entry and shows its name; of a file it shows the size, and offers it for
/// download.
pub open spec fn is_row_of(row: Text, directory: Text, item: PathItemView) -> bool {
    let dir = item.path_type == PathType::Dir;
    let href = escape::html_escaped(
        keys::href_of(keys::prefix_of_directory(directory) + item.name, dir),
    );
    let name = escape::html_escaped(item.name);
    &&& dir ==> ("<li><a class=\"name\" href=\""@ + href + "\">"@ + name
        + "/</a><span class=\"meta\">folder</span></li>"@) == row
    &&& !dir ==> ("<li><a class=\"name\" href=\""@ + href + "\">"@ + name
        + "</a><span class=\"meta\">"@ + numbers::decimal(item.size as nat)
        + " bytes</span>"@).is_prefix_of(row)
    &&& !dir ==> dav_laws::holds(
        row,
        "<a class=\"download\" href=\""@ + href + "\" download"@,
    )
}

proof fn lemma_row_shows(directory: Text, item: PathItemView)
    ensures
        is_row_of(pages::share_row(directory, item), directory, item),
{
    let dir = item.path_type == PathType::Dir;
    let row = pages::share_row(directory, item);
    key_laws::law_directories_are_prefixes(directory, item.name);
    let href = escape::html_escaped(
        keys::href_of(keys::prefix_of_directory(directory) + item.name, dir),
    );
    let name = escape::html_escaped(item.name);
    if !dir {
        let size = numbers::decimal(item.size as nat);
        reveal_strlit(" bytes</span><a class=\"download\" href=\"");
        reveal_strlit(" bytes</span>");
        reveal_strlit("<a class=\"download\" href=\"");
        reveal_strlit("\" download aria-label=\"");
        reveal_strlit("\" download");
        reveal_strlit(" aria-label=\"");
        let (bytes, link) = (" bytes</span>"@, "<a class=\"download\" href=\""@);
        let (end, label) = ("\" download"@, " aria-label=\""@);
        assert(" bytes</span><a class=\"download\" href=\""@ =~= bytes + link);
        assert("\" download aria-label=\""@ =~= end + label);
        let first = "<li><a class=\"name\" href=\""@ + href + "\">"@ + name
            + "</a><span class=\"meta\">"@ + size + bytes;
        let offer = link + href + end;
        let rest = label + escape::html_escaped("Download "@ + item.name)
            + "\">Download</a></li>"@;
        let shown = "<li><a class=\"name\" href=\""@ + href + "\">"@ + name
            + "</a><span class=\"meta\">"@ + size;
        assert(row == shown + (bytes + link) + href + (end + label) + escape::html_escaped(
            "Download "@ + item.name,
        ) + "\">Download</a></li>"@);
        assert(row =~= first + offer + rest);
        assert(row.subrange(0, first.len() as int) =~= first);
    }
}

proof fn lemma_rows_shown(key: Text, items: Seq<PathItemView>)
    ensures
        pages::share_rows(key, items) == dav_laws::one_after_another(
            Seq::new(items.len(), |i: int| pages::share_row(key, items[i])),
        ),
    decreases items.len(),
{
    let rows = Seq::new(items.len(), |i: int| pages::share_row(key, items[i]));
    if items.len() > 0 {
        lemma_rows_shown(key, items.drop_last());
        assert(rows.drop_last() =~= Seq::new(
            items.drop_last().len(),
            |i: int| pages::share_row(key, items.drop_last()[i]),
        ));
    }
}

/// The rows show these entries, in this order.
pub open spec fn are_rows_of(
    rows: Seq<Text>,
    directory: Text,
    items: Seq<PathItemView>,
) -> bool {
    &&& rows.len() == items.len()
    &&& forall|i: int| 0 <= i < items.len() ==> is_row_of(#[trigger] rows[i], directory, items[i])
}

/// The page of a shared directory shows every entry on a row of its own, by type and name, ahead of
/// them the way to the directory above, and where the visitor is.
pub proof fn law_shared_pages_show_every_entry(key: Text, items: Seq<PathItemView>)
    ensures
        ({
            let page = pages::share_page(key, items);
            &&& dav_laws::holds(
                page,
                "Read-only files in <code>"@ + escape::html_escaped(keys::href_of(key, true))
                    + "</code>"@,
            )
            &&& items.len() > 0 ==> exists|rows: Seq<Text>, ordered: Seq<PathItemView>| #[trigger]
                are_rows_of(rows, key, ordered) && ordered.to_multiset() == items.to_multiset()
                    && sort::comes_in_order(ordered, SortKey::Name) && dav_laws::holds(
                    page,
                    dav_laws::one_after_another(rows) + "</ul>"@,
                )
            &&& items.len() == 0 && key == "share"@ ==> dav_laws::holds(
                page,
                "<li class=\"empty\"><span>This folder is empty.</span></li>"@,
            )
        }),
{
    let page = pages::share_page(key, items);
    let ordered = sort::sorted(items, SortKey::Name);
    let rows = Seq::new(ordered.len(), |i: int| pages::share_row(key, ordered[i]));
    sort::law_sorting_by_name_orders(items);
    lemma_rows_shown(key, ordered);
    assert forall|i: int| 0 <= i < ordered.len() implies is_row_of(
        #[trigger] rows[i],
        key,
        ordered[i],
    ) by {
        lemma_row_shows(key, ordered[i]);
    }
    assert(are_rows_of(rows, key, ordered));
    lemma_place(key, items);
    if items.len() > 0 {
        lemma_rows_stand(key, items, rows);
    } else if key == "share"@ {
        let top = SHARE_PAGE_HEAD@ + escape::html_escaped(keys::href_of(key, true))
            + "</code></p><ul>"@;
        let empty = "<li class=\"empty\"><span>This folder is empty.</span></li>"@;
        assert(rows.len() == 0);
        assert(pages::share_list(key, items) == empty);
        assert(page == top + empty + "</ul></main></body></html>"@);
    }
}

proof fn lemma_rows_stand(key: Text, items: Seq<PathItemView>, rows: Seq<Text>)
    requires
        items.len() > 0,
        pages::share_rows(key, sort::sorted(items, SortKey::Name)) == dav_laws::one_after_another(
            rows,
        ),
        rows.len() > 0,
        forall|i: int|
            0 <= i < rows.len() ==> #[trigger] rows[i] == pages::share_row(
                key,
                sort::sorted(items, SortKey::Name)[i],
            ),
    ensures
        dav_laws::holds(
            pages::share_page(key, items),
            dav_laws::one_after_another(rows) + "</ul>"@,
        ),
{
    reveal_strlit("</ul></main></body></html>");
    reveal_strlit("</ul>");
    reveal_strlit("</main></body></html>");
    assert("</ul></main></body></html>"@ =~= "</ul>"@ + "</main></body></html>"@);
    let page = pages::share_page(key, items);
    let all = dav_laws::one_after_another(rows);
    let list = pages::parent_row(key) + all;
    let last = rows.last();
    reveal_strlit("<li><a class=\"name\" href=\"");
    assert(rows[rows.len() - 1].len() > 0);
    assert(list.len() > 0);
    assert(pages::share_list(key, items) == list);
    let top = SHARE_PAGE_HEAD@ + escape::html_escaped(keys::href_of(key, true))
        + "</code></p><ul>"@;
    assert(page == top + list + ("</ul>"@ + "</main></body></html>"@));
    assert(page =~= (top + pages::parent_row(key)) + (all + "</ul>"@) + "</main></body></html>"@);
}

proof fn lemma_place(key: Text, items: Seq<PathItemView>)
    ensures
        dav_laws::holds(
            pages::share_page(key, items),
            "Read-only files in <code>"@ + escape::html_escaped(keys::href_of(key, true))
                + "</code>"@,
        ),
{
    let page = pages::share_page(key, items);
    let place = escape::html_escaped(keys::href_of(key, true));
    let here = "Read-only files in <code>"@;
    reveal_strlit("Read-only files in <code>");
    reveal_strlit("</code></p><ul>");
    reveal_strlit("</code>");
    reveal_strlit("</p><ul>");
    assert("</code></p><ul>"@ =~= "</code>"@ + "</p><ul>"@);
    lemma_head_ends(here);
    let start = SHARE_PAGE_HEAD@.take(SHARE_PAGE_HEAD@.len() - here.len());
    assert(SHARE_PAGE_HEAD@ =~= start + here);
    let list = pages::share_list(key, items);
    let end = "</ul></main></body></html>"@;
    assert(page == (start + here) + place + ("</code>"@ + "</p><ul>"@) + list + end);
    assert(page =~= start + (here + place + "</code>"@) + ("</p><ul>"@ + list + end));
}

proof fn lemma_head_ends(here: Text)
    requires
        here == "Read-only files in <code>"@,
    ensures
        here.is_suffix_of(SHARE_PAGE_HEAD@),
{
    let head = SHARE_PAGE_HEAD@;
    reveal_strlit("Read-only files in <code>");
    reveal_strlit(
        "<!doctype html>\n<html lang=\"en\"><head><meta charset=\"utf-8\"><meta name=\"viewport\" content=\"width=device-width, initial-scale=1\">\n<title>Public share</title><style>\nbody{font:16px system-ui,sans-serif;max-width:860px;margin:3rem auto;padding:0 1rem;color:#1f2937}\nh1{font-size:1.5rem;margin-bottom:.25rem}p{color:#4b5563}ul{list-style:none;padding:0;border-top:1px solid #e5e7eb}\nli{display:grid;grid-template-columns:minmax(0,1fr) auto auto;gap:.75rem;align-items:center;padding:.7rem .25rem;border-bottom:1px solid #e5e7eb}\nli.parent{grid-template-columns:minmax(0,1fr) auto}.name{min-width:0;overflow-wrap:anywhere}\na{color:#2563eb;text-decoration:none}a:hover{text-decoration:underline}.meta{color:#6b7280;white-space:nowrap}\n.download{border:1px solid #cbd5e1;border-radius:6px;padding:.25rem .55rem;white-space:nowrap}.download:hover{background:#eff6ff;text-decoration:none}\n@media (max-width:520px){li{grid-template-columns:minmax(0,1fr) auto;gap:.35rem .75rem}.meta{grid-column:1;grid-row:2}.download{grid-column:2;grid-row:1 / span 2}li.parent .meta{grid-column:2;grid-row:1}}\n</style></head><body><main><h1>Public share</h1><p>Read-only files in <code>",
    );
    assert(head.subrange(head.len() - here.len(), head.len() as int) =~= here);
}

/// Below the root of the share, the page leads to the directory above.
pub proof fn law_shared_pages_lead_up(
    parent: Text,
    name: Text,
    items: Seq<PathItemView>,
)
    requires
        !name.contains('/'),
        parent + "/"@ + name != "share"@,
    ensures
        dav_laws::holds(
            pages::share_page(parent + "/"@ + name, items),
            "<ul><li class=\"parent\"><a class=\"name\" href=\""@ + escape::html_escaped(
                keys::href_of(parent, true),
            ) + "\">../</a>"@,
        ),
{
    let key = parent + "/"@ + name;
    reveal_strlit("/");
    assert(key =~= parent + seq!['/'] + name);
    text_laws::law_last_parts_are_cut_off(parent, name, '/');
    let page = pages::share_page(key, items);
    let place = escape::html_escaped(keys::href_of(key, true));
    let up = escape::html_escaped(keys::href_of(parent, true));
    let rows = pages::share_rows(key, sort::sorted(items, SortKey::Name));
    reveal_strlit("</code></p><ul>");
    reveal_strlit("</code></p>");
    reveal_strlit("<ul>");
    assert("</code></p><ul>"@ =~= "</code></p>"@ + "<ul>"@);
    reveal_strlit("\">../</a><span class=\"meta\">parent folder</span></li>");
    reveal_strlit("\">../</a>");
    reveal_strlit("<span class=\"meta\">parent folder</span></li>");
    assert("\">../</a><span class=\"meta\">parent folder</span></li>"@ =~= "\">../</a>"@
        + "<span class=\"meta\">parent folder</span></li>"@);
    reveal_strlit("<li class=\"parent\"><a class=\"name\" href=\"");
    reveal_strlit("<ul><li class=\"parent\"><a class=\"name\" href=\"");
    assert("<ul><li class=\"parent\"><a class=\"name\" href=\""@ =~= "<ul>"@
        + "<li class=\"parent\"><a class=\"name\" href=\""@);
    let first = SHARE_PAGE_HEAD@ + place + "</code></p>"@;
    let link = "<li class=\"parent\"><a class=\"name\" href=\""@;
    let tail = "<span class=\"meta\">parent folder</span></li>"@;
    let end = "</ul></main></body></html>"@;
    assert(pages::parent_row(key) == link + up + ("\">../</a>"@ + tail));
    assert(pages::share_list(key, items) == pages::parent_row(key) + rows);
    assert(page == SHARE_PAGE_HEAD@ + place + ("</code></p>"@ + "<ul>"@) + (link + up + (
    "\">../</a>"@ + tail) + rows) + end);
    assert(page =~= first + ("<ul>"@ + link + up + "\">../</a>"@) + (tail + rows + end));
}

} // verus!
