use vstd::prelude::*;
use vstd::string::StringExecFns;
use vstd::string::StrSliceExecFns;

use crate::models::{Dataset, DatasetInfo, DatasetInfoResponse, SplitInfo};
use crate::text::{chars_of, matches_at, occurs_at, strip_leading, strip_leading_char, str_eq};

verus! {

/// The address of the first page of the hub's list of datasets.
pub fn datasets_api_url() -> (r: String)
    ensures
        r@ == "https://huggingface.co/api/datasets"@,
{
    String::from_str("https://huggingface.co/api/datasets")
}

/// The status recorded for a dataset whose info could not be read.
pub const UNREADABLE_INFO_STATUS: u16 = 400;

/// The status code reports success: it lies in 200..300.
pub open spec fn is_success_spec(code: u16) -> bool {
    200 <= code < 300
}

/// Whether the status code reports success (200 to 299).
pub fn is_success_status(code: u16) -> (r: bool)
    ensures
        r == is_success_spec(code),
{
    200 <= code && code < 300
}

/// The viewer's info endpoint.
pub open spec fn info_url_prefix() -> Seq<char> {
    "https://datasets-server.huggingface.co/info?dataset="@
}

/// The viewer's statistics endpoint.
pub open spec fn stats_url_prefix() -> Seq<char> {
    "https://datasets-server.huggingface.co/statistics?dataset="@
}

/// The address of the info of a dataset.
pub fn info_url(dataset_id: &str) -> (r: String)
    ensures
        r@ == info_url_prefix() + dataset_id@,
{
    let mut r = String::from_str("https://datasets-server.huggingface.co/info?dataset=");
    r.append(dataset_id);
    r
}

/// The address of the statistics of a split of a config of a dataset.
pub fn stats_url(dataset_id: &str, config: &str, split: &str) -> (r: String)
    ensures
        r@ == stats_url_prefix() + dataset_id@ + "&config="@ + config@ + "&split="@ + split@,
{
    let mut r = String::from_str("https://datasets-server.huggingface.co/statistics?dataset=");
    r.append(dataset_id);
    r.append("&config=");
    r.append(config);
    r.append("&split=");
    r.append(split);
    r
}

/// The separator between the address and the relation in a `link` header.
pub open spec fn link_separator() -> Seq<char> {
    ">; "@
}

/// The relation that marks the last page.
pub open spec fn last_relation() -> Seq<char> {
    "rel=\"last\""@
}

/// `p` occurs in `s` at `i` and nowhere else.
pub open spec fn only_occurrence(s: Seq<char>, p: Seq<char>, i: int) -> bool {
    occurs_at(s, p, i) && forall|j: int| #[trigger] occurs_at(s, p, j) ==> j == i
}

/// Reads the `link` header of a page of the dataset list: the header must
/// split at `>; ` into exactly two parts (that is, hold the separator exactly
/// once, since it cannot overlap itself). The next address is the first
/// part without its leading `<`s, and the page is the last one when the
/// second part is `rel="last"`. `None` when the header does not split so.
pub fn parse_link_header(header: &str) -> (r: Option<(String, bool)>)
    ensures
        match r {
            None => !exists|i: int| only_occurrence(header@, link_separator(), i),
            Some((url, last)) => exists|i: int|
                {
                    &&& only_occurrence(header@, link_separator(), i)
                    &&& url@ == strip_leading(header@.take(i), '<')
                    &&& last == (header@.skip(i + 3) == last_relation())
                },
        },
{
    let hv = chars_of(header);
    let sep = chars_of(">; ");
    proof {
        reveal_strlit(">; ");
    }
    assert(sep@.len() == 3);
    let n = hv.len();
    let mut found: usize = 0;
    let mut count: usize = 0;
    let mut k: usize = 0;
    while k < n
        invariant
            n == hv@.len(),
            hv@ == header@,
            sep@ == link_separator(),
            k <= n,
            count <= 2,
            count == 0 ==> forall|j: int| 0 <= j < k ==> !occurs_at(header@, link_separator(), j),
            count == 1 ==> found < k && occurs_at(header@, link_separator(), found as int) && forall|j: int|
                0 <= j < k && j != found ==> !occurs_at(header@, link_separator(), j),
            count == 2 ==> found < k && occurs_at(header@, link_separator(), found as int) && exists|j: int|
                0 <= j < k && j != found && occurs_at(header@, link_separator(), j),
        decreases n - k,
    {
        if count < 2 && matches_at(&hv, &sep, k) {
            if count == 0 {
                found = k;
            }
            count = count + 1;
        }
        k = k + 1;
    }
    assert(link_separator().len() == 3);
    assert forall|j: int| j >= n implies !occurs_at(header@, link_separator(), j) by {
    }
    if count != 1 {
        proof {
            if count == 2 {
                assert forall|i: int| !only_occurrence(header@, link_separator(), i) by {
                    if occurs_at(header@, link_separator(), i) {
                        if i == found {
                            let j = choose|j: int| 0 <= j < k && j != found && occurs_at(header@, link_separator(), j);
                            assert(occurs_at(header@, link_separator(), j));
                        } else {
                            assert(occurs_at(header@, link_separator(), found as int));
                        }
                    }
                }
            } else {
                assert forall|i: int| !only_occurrence(header@, link_separator(), i) by {
                    if 0 <= i < n {
                        assert(!occurs_at(header@, link_separator(), i));
                    } else if i >= n {
                        assert(!occurs_at(header@, link_separator(), i));
                    }
                }
            }
        }
        return None;
    }
    assert forall|j: int| #[trigger] occurs_at(header@, link_separator(), j) implies j == found by {
        if j >= n {
            assert(!occurs_at(header@, link_separator(), j));
        }
    }
    let first = header.substring_char(0, found);
    let url = strip_leading_char(first, '<');
    let rest = header.substring_char(found + 3, n);
    let last = str_eq(rest, "rel=\"last\"");
    proof {
        assert(only_occurrence(header@, link_separator(), found as int));
        assert(header@.subrange(0, found as int) =~= header@.take(found as int));
        assert(header@.subrange(found + 3, n as int) =~= header@.skip(found + 3));
    }
    Some((url, last))
}

/// What was received when asking for a page of the dataset list.
pub enum PageOutcome {
    /// The request could not be sent.
    SendFailed,
    /// A response arrived, with its status and its `link` header if any.
    Received { status: u16, link: Option<String> },
}

/// What to do after asking for a page of the dataset list.
pub enum PageStep {
    /// Ask for the same page again.
    Retry,
    /// Save the page's datasets, then ask for the page at this address.
    SaveAndContinue(String),
    /// Save the page's datasets; it was the last page.
    SaveAndFinish,
}

/// Decides what to do with a page of the dataset list: retry after a failure,
/// else save the page and follow the `link` header unless it marks the last
/// page or there is none. `None` when the header cannot be read (see
/// `parse_link_header`).
pub fn next_page_step(outcome: &PageOutcome) -> (r: Option<PageStep>)
    ensures
        match outcome {
            PageOutcome::SendFailed => r == Some(PageStep::Retry),
            PageOutcome::Received { status, link } => {
                if !is_success_spec(*status) {
                    r == Some(PageStep::Retry)
                } else {
                    match link {
                        None => r == Some(PageStep::SaveAndFinish),
                        Some(h) => match r {
                            None => !exists|i: int| only_occurrence(h@, link_separator(), i),
                            Some(PageStep::SaveAndFinish) => exists|i: int|
                                only_occurrence(h@, link_separator(), i) && h@.skip(i + 3) == last_relation(),
                            Some(PageStep::SaveAndContinue(u)) => exists|i: int|
                                {
                                    &&& only_occurrence(h@, link_separator(), i)
                                    &&& h@.skip(i + 3) != last_relation()
                                    &&& u@ == strip_leading(h@.take(i), '<')
                                },
                            Some(PageStep::Retry) => false,
                        },
                    }
                }
            },
        },
{
    match outcome {
        PageOutcome::SendFailed => Some(PageStep::Retry),
        PageOutcome::Received { status, link } => {
            if !is_success_status(*status) {
                return Some(PageStep::Retry);
            }
            match link {
                None => Some(PageStep::SaveAndFinish),
                Some(h) => match parse_link_header(h.as_str()) {
                    None => None,
                    Some((url, last)) => {
                        if last {
                            Some(PageStep::SaveAndFinish)
                        } else {
                            Some(PageStep::SaveAndContinue(url))
                        }
                    },
                },
            }
        },
    }
}

/// The (dataset id, config name, split name) of every split of every config
/// of the info rows, row by row and config by config.
pub open spec fn stats_targets(rows: Seq<(String, DatasetInfoResponse)>) -> Seq<(Seq<char>, Seq<char>, Seq<char>)>
    decreases rows.len(),
{
    if rows.len() == 0 {
        Seq::empty()
    } else {
        stats_targets(rows.drop_last()) + row_targets(rows.last())
    }
}

/// The (dataset id, config name, split name) of every split of every config of one info row.
pub open spec fn row_targets(row: (String, DatasetInfoResponse)) -> Seq<(Seq<char>, Seq<char>, Seq<char>)> {
    configs_targets(row.0@, row.1.dataset_info@)
}

/// The (dataset id, config name, split name) of every split of the configs.
pub open spec fn configs_targets(id: Seq<char>, cs: Seq<(String, DatasetInfo)>) -> Seq<(Seq<char>, Seq<char>, Seq<char>)>
    decreases cs.len(),
{
    if cs.len() == 0 {
        Seq::empty()
    } else {
        configs_targets(id, cs.drop_last()) + cs.last().1.splits@.map_values(
            |s: (String, SplitInfo)| (id, cs.last().0@, s.0@),
        )
    }
}

/// Triples of texts, as character sequences.
pub open spec fn triples_view(v: Seq<(String, String, String)>) -> Seq<(Seq<char>, Seq<char>, Seq<char>)> {
    v.map_values(|t: (String, String, String)| (t.0@, t.1@, t.2@))
}

/// Every split whose statistics are to be fetched, as (dataset id, config name, split name).
pub fn stats_requests(rows: &Vec<(String, DatasetInfoResponse)>) -> (r: Vec<(String, String, String)>)
    ensures
        triples_view(r@) == stats_targets(rows@),
{
    let mut out: Vec<(String, String, String)> = Vec::new();
    let mut d: usize = 0;
    assert(triples_view(out@) =~= Seq::empty());
    while d < rows.len()
        invariant
            d <= rows@.len(),
            triples_view(out@) == stats_targets(rows@.take(d as int)),
        decreases rows.len() - d,
    {
        let id = &rows[d].0;
        let cs = &rows[d].1.dataset_info;
        let ghost base = triples_view(out@);
        let mut c: usize = 0;
        assert(cs@.take(0) =~= Seq::<(String, DatasetInfo)>::empty());
        assert(base + configs_targets(id@, cs@.take(0)) =~= base);
        while c < cs.len()
            invariant
                c <= cs@.len(),
                triples_view(out@) == base + configs_targets(id@, cs@.take(c as int)),
            decreases cs.len() - c,
        {
            let cname = &cs[c].0;
            let splits = &cs[c].1.splits;
            let ghost mid = triples_view(out@);
            let mut s: usize = 0;
            while s < splits.len()
                invariant
                    s <= splits@.len(),
                    triples_view(out@) == mid + splits@.take(s as int).map_values(
                        |sp: (String, SplitInfo)| (id@, cname@, sp.0@),
                    ),
                decreases splits.len() - s,
            {
                let ghost before = out@;
                out.push((id.clone(), cname.clone(), splits[s].0.clone()));
                proof {
                    assert(triples_view(out@) =~= triples_view(before).push((id@, cname@, splits@[s as int].0@)));
                    assert(splits@.take(s + 1).map_values(|sp: (String, SplitInfo)| (id@, cname@, sp.0@))
                        =~= splits@.take(s as int).map_values(|sp: (String, SplitInfo)| (id@, cname@, sp.0@)).push(
                        (id@, cname@, splits@[s as int].0@),
                    ));
                }
                s = s + 1;
            }
            proof {
                assert(splits@.take(s as int) =~= splits@);
                assert(cs@.take(c + 1).drop_last() =~= cs@.take(c as int));
                assert(cs@.take(c + 1).last() == cs@[c as int]);
            }
            c = c + 1;
        }
        proof {
            assert(cs@.take(c as int) =~= cs@);
            assert(rows@.take(d + 1).drop_last() =~= rows@.take(d as int));
        }
        d = d + 1;
    }
    assert(rows@.take(d as int) =~= rows@);
    out
}

/// The address of the info of each dataset, in order.
pub fn info_requests(datasets: &Vec<Dataset>) -> (r: Vec<String>)
    ensures
        r@.len() == datasets@.len(),
        forall|i: int| 0 <= i < r@.len() ==> (#[trigger] r@[i])@ == info_url_prefix() + datasets@[i].id@,
{
    let mut out: Vec<String> = Vec::new();
    let mut k: usize = 0;
    while k < datasets.len()
        invariant
            k <= datasets@.len(),
            out@.len() == k,
            forall|i: int| 0 <= i < k ==> (#[trigger] out@[i])@ == info_url_prefix() + datasets@[i].id@,
        decreases datasets.len() - k,
    {
        out.push(info_url(datasets[k].id.as_str()));
        k = k + 1;
    }
    out
}

/// How the body of a response from the dataset viewer is read.
pub enum ReadAction {
    /// As text: the status did not report success.
    ReadText,
    /// As the expected JSON document: the status reported success.
    ParseBody,
}

/// How to read the body of a response with status `status`: as text on a
/// failure, as the expected document on success.
pub fn read_action(status: u16) -> (r: ReadAction)
    ensures
        (r is ReadText) <==> !is_success_spec(status),
{
    if is_success_status(status) {
        ReadAction::ParseBody
    } else {
        ReadAction::ReadText
    }
}

/// What was read of a response from the dataset viewer.
pub enum ViewerBody<T> {
    /// The status did not report success; this is the body text.
    Text(String),
    /// The status reported success and the body was read as this document.
    Parsed(T),
    /// The status reported success but the body could not be read; this is the error.
    ParseError(String),
}

/// The body was read as `read_action` says for the status: as text exactly
/// when the status does not report success.
pub open spec fn read_as_status_says<T>(status: u16, body: ViewerBody<T>) -> bool {
    (body is Text) <==> !is_success_spec(status)
}

/// What to store for a response: the document, the status code to record and
/// the error text; `None` when nothing is stored and fetching stops.
pub type ViewerRecord<T> = Option<(Option<T>, u16, Option<String>)>;

/// What to store for a dataset's info response with status `status`: a
/// failure keeps its status and body text; a body that cannot be read is
/// stored as `UNREADABLE_INFO_STATUS` with the error; info that was read is
/// stored with its status. So info is stored only with a success status and
/// no error, and no error is stored only with a success status.
pub fn info_record<T>(status: u16, body: ViewerBody<T>) -> (r: ViewerRecord<T>)
    requires
        read_as_status_says(status, body),
    ensures
        match body {
            ViewerBody::Text(t) => r == Some((None::<T>, status, Some(t))),
            ViewerBody::Parsed(v) => r == Some((Some(v), status, None::<String>)),
            ViewerBody::ParseError(e) => r == Some((None::<T>, UNREADABLE_INFO_STATUS, Some(e))),
        },
        r matches Some((info, s, err)) && (info is Some ==> is_success_spec(s) && err is None) && (err is None
            ==> is_success_spec(s)),
{
    match body {
        ViewerBody::Text(t) => Some((None, status, Some(t))),
        ViewerBody::Parsed(v) => Some((Some(v), status, None)),
        ViewerBody::ParseError(e) => Some((None, UNREADABLE_INFO_STATUS, Some(e))),
    }
}

/// What to store for a split's statistics response with status `status`: a
/// failure keeps its status and body text, statistics that were read are
/// stored with their status, and a body that cannot be read stops the
/// fetching (`None`). So statistics are stored only with a success status
/// and no error.
pub fn stats_record<T>(status: u16, body: ViewerBody<T>) -> (r: ViewerRecord<T>)
    requires
        read_as_status_says(status, body),
    ensures
        match body {
            ViewerBody::Text(t) => r == Some((None::<T>, status, Some(t))),
            ViewerBody::Parsed(v) => r == Some((Some(v), status, None::<String>)),
            ViewerBody::ParseError(_) => r is None,
        },
        r matches Some((stats, s, err)) ==> (stats is Some <==> is_success_spec(s)) && (err is None
            <==> is_success_spec(s)),
{
    match body {
        ViewerBody::Text(t) => Some((None, status, Some(t))),
        ViewerBody::Parsed(v) => Some((Some(v), status, None)),
        ViewerBody::ParseError(_) => None,
    }
}

} // verus!
