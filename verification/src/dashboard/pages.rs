//! The pages of the dashboard. They are filled in the browser; what is built here is
//! their frame.
use crate::dashboard::texts;
use crate::scan;
use crate::scan::search_text;
use crate::text;
use crate::text::{chars_of, push_chars, push_decimal, push_text};
use vstd::prelude::*;
use vstd::slice::slice_subrange;

verus! {

/// A text with every occurrence of a mark replaced, from left to right.
pub open spec fn replaced(s: Seq<char>, mark: Seq<char>, with: Seq<char>) -> Seq<char>
    decreases s.len(),
{
    if mark.len() == 0 {
        s
    } else {
        proof {
            scan::find_text_is_first(s, mark, 0);
        }
        match scan::find_text(s, mark, 0) {
            Some(k) => s.subrange(0, k) + with + replaced(
                scan::rest(s, k + mark.len()),
                mark,
                with,
            ),
            None => s,
        }
    }
}

/// Replaces every occurrence of a mark.
pub fn replace(s: &str, mark: &str, with: &str) -> (r: String)
    requires
        mark@.len() > 0,
    ensures
        r@ == replaced(s@, mark@, with@),
{
    let all = chars_of(s);
    let n: usize = all.len();
    let m = chars_of(mark);
    let w: usize = m.len();
    let mut out = String::new();
    let mut pos: usize = 0;
    assert(scan::rest(all@, 0) =~= all@);
    assert(out@ + replaced(all@, mark@, with@) =~= replaced(all@, mark@, with@));
    loop
        invariant_except_break
            n == all@.len(),
            m@ == mark@,
            w == m@.len(),
            w > 0,
            pos <= n,
            replaced(s@, mark@, with@) == out@ + replaced(
                scan::rest(all@, pos as int),
                mark@,
                with@,
            ),
        ensures
            out@ == replaced(s@, mark@, with@),
        decreases n - pos,
    {
        let tail = slice_subrange(&all, pos, n);
        let ghost t = scan::rest(all@, pos as int);
        assert(tail@ =~= t);
        let ghost before = out@;
        match search_text(tail, &m, 0) {
            Some(k) => {
                push_chars(&mut out, slice_subrange(tail, 0, k));
                push_text(&mut out, with);
                assert(scan::rest(t, k + w) =~= scan::rest(all@, pos + k + w));
                assert(before + (t.subrange(0, k as int) + with@ + replaced(
                    scan::rest(t, k + w),
                    mark@,
                    with@,
                )) =~= out@ + replaced(scan::rest(t, k + w), mark@, with@));
                pos = pos + k + w;
            },
            None => {
                push_chars(&mut out, tail);
                break;
            },
        }
    }
    out
}

/// The main page.
pub fn index(version: &str) -> (r: String)
    ensures
        r@ == replaced(
            replaced(texts::INDEX@, "__STYLE__"@, texts::STYLE@),
            "__VERSION__"@,
            version@,
        ),
{
    proof {
        reveal_strlit("__STYLE__");
        reveal_strlit("__VERSION__");
    }
    let styled = replace(texts::INDEX, "__STYLE__", texts::STYLE);
    replace(&styled, "__VERSION__", version)
}

pub open spec fn column_views(v: Seq<&str>) -> Seq<Seq<char>> {
    Seq::new(v.len(), |i: int| v[i]@)
}

/// The head cells of a table.
pub open spec fn head_cells(columns: Seq<Seq<char>>) -> Seq<char>
    decreases columns.len(),
{
    if columns.len() == 0 {
        seq![]
    } else {
        head_cells(columns.drop_last()) + ("<th>"@ + columns.last() + "</th>"@)
    }
}

/// A page that shows a list, ten or so entries at a time, and reads it anew every two
/// seconds. `endpoint` is where the list is read from, `entries` how the entries are
/// taken from the answer, and `row` how one is shown.
pub open spec fn log_text(
    title: Seq<char>,
    endpoint: Seq<char>,
    entries: Seq<char>,
    row: Seq<char>,
    columns: Seq<Seq<char>>,
    per_page: nat,
    empty: Seq<char>,
    version: Seq<char>,
) -> Seq<char> {
    texts::LOG_1@ + title + texts::LOG_2@ + texts::STYLE@ + texts::LOG_3@ + title + texts::LOG_4@
        + version + texts::LOG_5@ + head_cells(columns) + texts::LOG_6@ + row + texts::LOG_7@
        + text::decimal(per_page) + texts::LOG_8@ + text::decimal(columns.len()) + texts::LOG_9@
        + empty + texts::LOG_10@ + endpoint + texts::LOG_11@ + entries + texts::LOG_12@
}

/// Builds a page that shows a list.
pub fn log_page(
    title: &str,
    endpoint: &str,
    entries: &str,
    row: &str,
    columns: &[&str],
    per_page: usize,
    empty: &str,
    version: &str,
) -> (r: String)
    ensures
        r@ == log_text(
            title@,
            endpoint@,
            entries@,
            row@,
            column_views(columns@),
            per_page as nat,
            empty@,
            version@,
        ),
{
    let ghost cols = column_views(columns@);
    let mut cells = String::new();
    let mut i: usize = 0;
    assert(cols.subrange(0, 0) =~= seq![]);
    while i < columns.len()
        invariant
            i <= columns@.len(),
            cols == column_views(columns@),
            cells@ == head_cells(cols.subrange(0, i as int)),
        decreases columns@.len() - i,
    {
        let ghost before = cells@;
        push_text(&mut cells, "<th>");
        push_text(&mut cells, columns[i]);
        push_text(&mut cells, "</th>");
        proof {
            let more = cols.subrange(0, i + 1);
            assert(more.drop_last() =~= cols.subrange(0, i as int));
            assert(more.last() == columns@[i as int]@);
            assert(cells@ =~= before + ("<th>"@ + columns@[i as int]@ + "</th>"@));
        }
        i = i + 1;
    }
    assert(cols.subrange(0, i as int) =~= cols);
    let mut out = String::new();
    push_text(&mut out, texts::LOG_1);
    push_text(&mut out, title);
    push_text(&mut out, texts::LOG_2);
    push_text(&mut out, texts::STYLE);
    push_text(&mut out, texts::LOG_3);
    push_text(&mut out, title);
    push_text(&mut out, texts::LOG_4);
    push_text(&mut out, version);
    push_text(&mut out, texts::LOG_5);
    push_text(&mut out, &cells);
    push_text(&mut out, texts::LOG_6);
    push_text(&mut out, row);
    push_text(&mut out, texts::LOG_7);
    push_decimal(&mut out, per_page as u64);
    push_text(&mut out, texts::LOG_8);
    push_decimal(&mut out, columns.len() as u64);
    push_text(&mut out, texts::LOG_9);
    push_text(&mut out, empty);
    push_text(&mut out, texts::LOG_10);
    push_text(&mut out, endpoint);
    push_text(&mut out, texts::LOG_11);
    push_text(&mut out, entries);
    push_text(&mut out, texts::LOG_12);
    assert(out@ =~= log_text(
        title@,
        endpoint@,
        entries@,
        row@,
        cols,
        per_page as nat,
        empty@,
        version@,
    ));
    out
}

/// The page of recent calls.
pub fn calls_page(version: &str) -> (r: String)
    ensures
        r@ == log_text(
            "Recent calls"@,
            "/api/status"@,
            texts::CALLS_ENTRIES@,
            texts::CALLS_ROW@,
            seq!["Type"@, "From"@, "To"@, "Start"@, "Duration"@, "Frames"@],
            10,
            "No completed calls"@,
            version@,
        ),
{
    let columns: [&str; 6] = ["Type", "From", "To", "Start", "Duration", "Frames"];
    assert(column_views(columns@) =~= seq!["Type"@, "From"@, "To"@, "Start"@, "Duration"@, "Frames"@]);
    log_page(
        "Recent calls",
        "/api/status",
        texts::CALLS_ENTRIES,
        texts::CALLS_ROW,
        &columns,
        10,
        "No completed calls",
        version,
    )
}

/// The page of recent messages.
pub fn sds_page(version: &str) -> (r: String)
    ensures
        r@ == log_text(
            "Recent SDS"@,
            "/api/status"@,
            texts::SDS_ENTRIES@,
            texts::SDS_ROW@,
            seq!["Time"@, "From"@, "To"@, "Reports"@, "UUID"@],
            10,
            "No SDS yet"@,
            version@,
        ),
{
    let columns: [&str; 5] = ["Time", "From", "To", "Reports", "UUID"];
    assert(column_views(columns@) =~= seq!["Time"@, "From"@, "To"@, "Reports"@, "UUID"@]);
    log_page(
        "Recent SDS",
        "/api/status",
        texts::SDS_ENTRIES,
        texts::SDS_ROW,
        &columns,
        10,
        "No SDS yet",
        version,
    )
}

/// The page of messages that base stations told of.
pub fn telemetry_sds_page(version: &str) -> (r: String)
    ensures
        r@ == log_text(
            "Telemetry SDS Log"@,
            "/api/telemetry"@,
            texts::TELEMETRY_SDS_ENTRIES@,
            texts::TELEMETRY_SDS_ROW@,
            seq!["Time"@, "BTS"@, "Dir"@, "From"@, "To"@, "Type"@, "Text"@],
            5,
            "No telemetry SDS yet"@,
            version@,
        ),
{
    let columns: [&str; 7] = ["Time", "BTS", "Dir", "From", "To", "Type", "Text"];
    assert(column_views(columns@) =~= seq!["Time"@, "BTS"@, "Dir"@, "From"@, "To"@, "Type"@, "Text"@]);
    log_page(
        "Telemetry SDS Log",
        "/api/telemetry",
        texts::TELEMETRY_SDS_ENTRIES,
        texts::TELEMETRY_SDS_ROW,
        &columns,
        5,
        "No telemetry SDS yet",
        version,
    )
}

/// The page of registrations.
pub fn registrations_page(version: &str) -> (r: String)
    ensures
        r@ == log_text(
            "Mobile Station Registrations"@,
            "/api/registrations"@,
            texts::REGISTRATIONS_ENTRIES@,
            texts::REGISTRATIONS_ROW@,
            seq!["Time"@, "BTS"@, "ISSI"@, "Event"@],
            15,
            "No registration events yet"@,
            version@,
        ),
{
    let columns: [&str; 4] = ["Time", "BTS", "ISSI", "Event"];
    assert(column_views(columns@) =~= seq!["Time"@, "BTS"@, "ISSI"@, "Event"@]);
    log_page(
        "Mobile Station Registrations",
        "/api/registrations",
        texts::REGISTRATIONS_ENTRIES,
        texts::REGISTRATIONS_ROW,
        &columns,
        15,
        "No registration events yet",
        version,
    )
}

fn framed(a: &str, b: &str, c: &str, version: &str) -> (r: String)
    ensures
        r@ == a@ + texts::STYLE@ + b@ + version@ + c@,
{
    let mut out = String::new();
    push_text(&mut out, a);
    push_text(&mut out, texts::STYLE);
    push_text(&mut out, b);
    push_text(&mut out, version);
    push_text(&mut out, c);
    assert(out@ =~= a@ + texts::STYLE@ + b@ + version@ + c@);
    out
}

/// The page with the map of mobile stations.
pub fn map_page(version: &str) -> (r: String)
    ensures
        r@ == texts::MAP_1@ + texts::STYLE@ + texts::MAP_2@ + version@ + texts::MAP_3@,
{
    framed(texts::MAP_1, texts::MAP_2, texts::MAP_3, version)
}

/// The page of the SIP side.
pub fn sip_page(version: &str) -> (r: String)
    ensures
        r@ == texts::SIP_1@ + texts::STYLE@ + texts::SIP_2@ + version@ + texts::SIP_3@,
{
    framed(texts::SIP_1, texts::SIP_2, texts::SIP_3, version)
}

/// The page of the SIP configuration.
pub fn sip_config_page(version: &str) -> (r: String)
    ensures
        r@ == texts::SIP_CONFIG_1@ + texts::STYLE@ + texts::SIP_CONFIG_2@ + version@ + texts::SIP_CONFIG_3@,
{
    framed(texts::SIP_CONFIG_1, texts::SIP_CONFIG_2, texts::SIP_CONFIG_3, version)
}

/// The page of connections.
pub fn connections_page(version: &str) -> (r: String)
    ensures
        r@ == texts::CONNECTIONS_1@ + texts::STYLE@ + texts::CONNECTIONS_2@ + version@ + texts::CONNECTIONS_3@,
{
    framed(texts::CONNECTIONS_1, texts::CONNECTIONS_2, texts::CONNECTIONS_3, version)
}

/// The settings page.
pub fn settings_page(version: &str) -> (r: String)
    ensures
        r@ == texts::SETTINGS_1@ + texts::STYLE@ + texts::SETTINGS_2@ + version@ + texts::SETTINGS_3@,
{
    framed(texts::SETTINGS_1, texts::SETTINGS_2, texts::SETTINGS_3, version)
}

/// A mark in a text is replaced wherever it stands, from left to right, and nothing else
/// is; what takes its place is not looked at again.
pub proof fn marks_are_replaced(a: Seq<char>, mark: Seq<char>, b: Seq<char>, with: Seq<char>)
    requires
        mark.len() > 0,
        forall|i: int| 0 <= i < a.len() ==> !#[trigger] scan::stands_at(a + mark + b, mark, i),
    ensures
        replaced(a + mark + b, mark, with) == a + with + replaced(b, mark, with),
        (forall|i: int| 0 <= i ==> !#[trigger] scan::stands_at(b, mark, i)) ==> replaced(
            b,
            mark,
            with,
        ) == b,
{
    let s = a + mark + b;
    let n = a.len() as int;
    assert(s.subrange(n, n + mark.len()) =~= mark);
    assert(scan::stands_at(s, mark, n));
    scan::find_text_is_first(s, mark, 0);
    let k = scan::find_text(s, mark, 0)->0;
    assert(k == n);
    assert(s.subrange(0, n) =~= a);
    assert(scan::rest(s, n + mark.len()) =~= b);
    scan::find_text_is_first(b, mark, 0);
}

} // verus!
