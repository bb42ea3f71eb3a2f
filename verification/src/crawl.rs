//! Which stored links get requested, where a fetched page is saved, and what
//! is remembered of a request that timed out.

use vstd::prelude::*;
use url::ParseError as Refusal;

use crate::decimal::{
    decimal_text, i32_to_decimal, lemma_parse_decimal_text, parse_i32, parse_i32_spec,
};

verus! {

/// Why `url::Url::parse` refuses a text: the variants of the url crate's
/// `ParseError`, and `Other` for any variant a later release adds.
#[derive(Clone, Copy, Debug, PartialEq, Eq, Structural)]
pub enum UrlParseError {
    EmptyHost,
    IdnaError,
    InvalidPort,
    InvalidIpv4Address,
    InvalidIpv6Address,
    InvalidDomainCharacter,
    RelativeUrlWithoutBase,
    RelativeUrlWithCannotBeABaseBase,
    SetHostOnCannotBeABaseUrl,
    Overflow,
    Other,
}

/// What `url::Url::parse` makes of a text: the serialization of the parsed
/// URL, or the reason it refused the text.
pub uninterp spec fn url_parse_result(input: Seq<char>) -> Result<Seq<char>, UrlParseError>;

/// Calls `url::Url::parse`. Claimed: the result is the one that
/// `url_parse_result` names for the input, with a parsed URL given as its
/// serialization (the url crate's `From<Url> for String`). Nothing more is
/// claimed of which texts parse.
#[verifier::external_body]
fn parse_url(input: &str) -> (r: Result<String, UrlParseError>)
    ensures
        url_parse_result(input@) == parsed_view(r),
{
    match url::Url::parse(input) {
        Ok(u) => Ok(String::from(u)),
        Err(Refusal::EmptyHost) => Err(UrlParseError::EmptyHost),
        Err(Refusal::IdnaError) => Err(UrlParseError::IdnaError),
        Err(Refusal::InvalidPort) => Err(UrlParseError::InvalidPort),
        Err(Refusal::InvalidIpv4Address) => Err(UrlParseError::InvalidIpv4Address),
        Err(Refusal::InvalidIpv6Address) => Err(UrlParseError::InvalidIpv6Address),
        Err(Refusal::InvalidDomainCharacter) => Err(UrlParseError::InvalidDomainCharacter),
        Err(Refusal::RelativeUrlWithoutBase) => Err(UrlParseError::RelativeUrlWithoutBase),
        Err(Refusal::RelativeUrlWithCannotBeABaseBase) => Err(UrlParseError::RelativeUrlWithCannotBeABaseBase),
        Err(Refusal::SetHostOnCannotBeABaseUrl) => Err(UrlParseError::SetHostOnCannotBeABaseUrl),
        Err(Refusal::Overflow) => Err(UrlParseError::Overflow),
        Err(_) => Err(UrlParseError::Other),
    }
}

/// The outcome of a URL parse with the URL taken by its text.
pub open spec fn parsed_view(r: Result<String, UrlParseError>) -> Result<Seq<char>, UrlParseError> {
    match r {
        Ok(s) => Ok(s@),
        Err(e) => Err(e),
    }
}

/// A link is requested unless its URL is relative with no base to resolve it against.
pub open spec fn is_fetchable(parsed: Result<Seq<char>, UrlParseError>) -> bool {
    !(parsed matches Err(e) && e == UrlParseError::RelativeUrlWithoutBase)
}

/// A link of the `json` table: its row id and its URL.
#[derive(Debug)]
pub struct UrlId {
    pub id: i32,
    pub url: String,
}

impl View for UrlId {
    type V = (i32, Seq<char>);

    open spec fn view(&self) -> (i32, Seq<char>) {
        (self.id, self.url@)
    }
}

/// A link whose request timed out, as kept in the `errorurlid` table.
#[derive(Debug)]
pub struct ErrorUrlId {
    pub id: i32,
    pub url: String,
}

impl View for ErrorUrlId {
    type V = (i32, Seq<char>);

    open spec fn view(&self) -> (i32, Seq<char>) {
        (self.id, self.url@)
    }
}

/// One request to make: the id of its link as text (it names the saved page)
/// and the URL to request.
pub struct FetchRequest {
    pub id: String,
    pub url: String,
}

impl View for FetchRequest {
    type V = (Seq<char>, Seq<char>);

    open spec fn view(&self) -> (Seq<char>, Seq<char>) {
        (self.id@, self.url@)
    }
}

/// The request made for the link with id `id` and URL `url`.
pub open spec fn request_for(id: i32, url: Seq<char>) -> (Seq<char>, Seq<char>) {
    (decimal_text(id as int), url)
}

/// The requests made for `links`, in their order: one for each link whose URL
/// is fetchable.
pub open spec fn fetch_plan_spec(links: Seq<(i32, Seq<char>)>) -> Seq<(Seq<char>, Seq<char>)>
    decreases links.len(),
{
    if links.len() == 0 {
        Seq::empty()
    } else {
        let rest = fetch_plan_spec(links.drop_last());
        let link = links.last();
        if is_fetchable(url_parse_result(link.1)) {
            rest.push(request_for(link.0, link.1))
        } else {
            rest
        }
    }
}

/// The links that get a request: those whose URL is fetchable.
pub open spec fn fetchable_link() -> spec_fn((i32, Seq<char>)) -> bool {
    |l: (i32, Seq<char>)| is_fetchable(url_parse_result(l.1))
}

/// The request made for a link.
pub open spec fn link_request() -> spec_fn((i32, Seq<char>)) -> (Seq<char>, Seq<char>) {
    |l: (i32, Seq<char>)| request_for(l.0, l.1)
}

/// The plan requests every link with a fetchable URL, in order, and nothing
/// else: it is the fetchable links, each turned into its request; so it has one
/// request per fetchable link, and every fetchable link is requested.
pub proof fn lemma_plan_requests_every_fetchable_link(links: Seq<(i32, Seq<char>)>)
    ensures
        fetch_plan_spec(links) == links.filter(fetchable_link()).map_values(link_request()),
        fetch_plan_spec(links).len() == links.filter(fetchable_link()).len(),
        forall|j: int|
            0 <= j < links.len() && is_fetchable(url_parse_result(links[j].1))
                ==> fetch_plan_spec(links).contains(request_for(links[j].0, links[j].1)),
    decreases links.len(),
{
    if links.len() > 0 {
        let prefix = links.drop_last();
        let last = links.last();
        lemma_plan_requests_every_fetchable_link(prefix);
        assert(prefix.push(last) =~= links);
        prefix.lemma_filter_push(last, fetchable_link());
        let rest = fetch_plan_spec(prefix);
        let plan = fetch_plan_spec(links);
        if is_fetchable(url_parse_result(last.1)) {
            assert(prefix.filter(fetchable_link()).push(last).map_values(link_request())
                =~= prefix.filter(fetchable_link()).map_values(link_request()).push(
                request_for(last.0, last.1),
            ));
        }
        assert forall|j: int|
            0 <= j < links.len() && is_fetchable(
                url_parse_result(links[j].1),
            ) implies plan.contains(request_for(links[j].0, links[j].1)) by {
            if j < links.len() - 1 {
                assert(links[j] == prefix[j]);
                let k = choose|k: int| 0 <= k < rest.len() && rest[k] == request_for(links[j].0, links[j].1);
                assert(plan[k] == rest[k]);
            } else {
                assert(plan[plan.len() - 1] == request_for(links[j].0, links[j].1));
            }
        }
    } else {
        reveal(Seq::filter);
        assert(links.filter(fetchable_link()).map_values(link_request()) =~= Seq::<(Seq<char>, Seq<char>)>::empty());
    }
}

/// The views of a list of links.
pub open spec fn links_view(links: Seq<UrlId>) -> Seq<(i32, Seq<char>)> {
    links.map_values(|l: UrlId| l@)
}

/// The views of a list of failed links.
pub open spec fn errors_view(errors: Seq<ErrorUrlId>) -> Seq<(i32, Seq<char>)> {
    errors.map_values(|e: ErrorUrlId| e@)
}

/// The views of a list of requests.
pub open spec fn requests_view(plan: Seq<FetchRequest>) -> Seq<(Seq<char>, Seq<char>)> {
    plan.map_values(|q: FetchRequest| q@)
}

impl FetchRequest {
    /// The request for the link `id`/`url` once its URL has been parsed to
    /// `parsed`: none when the URL is relative without a base.
    pub fn for_link(id: i32, url: &String, parsed: &Result<String, UrlParseError>) -> (r: Option<
        FetchRequest,
    >)
        ensures
            r is Some <==> is_fetchable(parsed_view(*parsed)),
            r matches Some(q) ==> q@ == request_for(id, url@),
    {
        match parsed {
            Err(UrlParseError::RelativeUrlWithoutBase) => None,
            _ => Some(FetchRequest { id: i32_to_decimal(id), url: url.clone() }),
        }
    }

    /// The request for the link `id`/`url`, if its URL is fetchable.
    fn for_url(id: i32, url: &String) -> (r: Option<FetchRequest>)
        ensures
            r is Some <==> is_fetchable(url_parse_result(url@)),
            r matches Some(q) ==> q@ == request_for(id, url@),
    {
        let parsed = parse_url(url.as_str());
        FetchRequest::for_link(id, url, &parsed)
    }
}

/// A stored link, as the plan reads it: an id and a URL.
trait LinkRow {
    spec fn row(&self) -> (i32, Seq<char>);

    fn link_id(&self) -> (id: i32)
        ensures
            id == self.row().0,
    ;

    fn link_url(&self) -> (url: &String)
        ensures
            url@ == self.row().1,
    ;
}

impl LinkRow for UrlId {
    spec fn row(&self) -> (i32, Seq<char>) {
        self@
    }

    fn link_id(&self) -> (id: i32) {
        self.id
    }

    fn link_url(&self) -> (url: &String) {
        &self.url
    }
}

impl LinkRow for ErrorUrlId {
    spec fn row(&self) -> (i32, Seq<char>) {
        self@
    }

    fn link_id(&self) -> (id: i32) {
        self.id
    }

    fn link_url(&self) -> (url: &String) {
        &self.url
    }
}

/// The requests made for `links`, in order; a link whose URL is relative
/// without a base is skipped.
fn plan_requests<L: LinkRow>(links: &Vec<L>) -> (plan: Vec<FetchRequest>)
    ensures
        requests_view(plan@) == fetch_plan_spec(links@.map_values(|l: L| l.row())),
{
    let ghost rows = links@.map_values(|l: L| l.row());
    let mut plan: Vec<FetchRequest> = Vec::new();
    let mut i: usize = 0;
    while i < links.len()
        invariant
            i <= links@.len(),
            rows == links@.map_values(|l: L| l.row()),
            requests_view(plan@) == fetch_plan_spec(rows.take(i as int)),
        decreases links@.len() - i,
    {
        let ghost before = rows.take(i as int);
        let ghost after = rows.take(i + 1);
        assert(after.drop_last() =~= before);
        assert(after.last() == links@[i as int].row());
        let id = links[i].link_id();
        let url = links[i].link_url();
        match FetchRequest::for_url(id, url) {
            Some(q) => {
                plan.push(q);
                assert(requests_view(plan@) =~= fetch_plan_spec(before).push(
                    request_for(id, url@),
                ));
            },
            None => {},
        }
        i = i + 1;
    }
    assert(rows.take(links@.len() as int) =~= rows);
    plan
}

impl UrlId {
    /// The requests made for the stored links, in order; a link whose URL is
    /// relative without a base is skipped.
    pub fn fetch_plan(links: &Vec<UrlId>) -> (plan: Vec<FetchRequest>)
        ensures
            requests_view(plan@) == fetch_plan_spec(links_view(links@)),
            requests_view(plan@) == links_view(links@).filter(fetchable_link()).map_values(
                link_request(),
            ),
    {
        let plan = plan_requests(links);
        assert(links@.map_values(|l: UrlId| l.row()) =~= links_view(links@));
        proof {
            lemma_plan_requests_every_fetchable_link(links_view(links@));
        }
        plan
    }
}

impl ErrorUrlId {
    /// The requests made when the recorded failures are retried, in order; a
    /// URL that is relative without a base is skipped.
    pub fn retry_plan(errorurls: &Vec<ErrorUrlId>) -> (plan: Vec<FetchRequest>)
        ensures
            requests_view(plan@) == fetch_plan_spec(errors_view(errorurls@)),
            requests_view(plan@) == errors_view(errorurls@).filter(fetchable_link()).map_values(
                link_request(),
            ),
    {
        let plan = plan_requests(errorurls);
        assert(errorurls@.map_values(|l: ErrorUrlId| l.row()) =~= errors_view(errorurls@));
        proof {
            lemma_plan_requests_every_fetchable_link(errors_view(errorurls@));
        }
        plan
    }
}

/// The path of the file that keeps the page fetched for the link `id`:
/// `<id>/<id>.html`.
pub open spec fn page_file_text(id: Seq<char>) -> Seq<char> {
    id + "/"@ + id + ".html"@
}

/// The page of the link `id` is saved inside the directory `id`, under the
/// name `id.html`, whatever the id: the path is the id, a `/`, the id again
/// and `.html`.
pub proof fn lemma_page_file_in_its_directory(id: Seq<char>)
    ensures
        page_file_text(id).len() == 2 * id.len() + 6,
        page_file_text(id).take(id.len() + 1int) == id.push('/'),
        page_file_text(id).skip(id.len() + 1int) == id + seq!['.', 'h', 't', 'm', 'l'],
{
    reveal_strlit("/");
    reveal_strlit(".html");
    assert(page_file_text(id).take(id.len() + 1int) =~= id.push('/'));
    assert(page_file_text(id).skip(id.len() + 1int) =~= id + seq!['.', 'h', 't', 'm', 'l']);
}

/// The path of the file that keeps the page fetched for the link `id`,
/// inside the directory named `id`.
pub fn page_file_path(id: &str) -> (path: String)
    ensures
        path@ == page_file_text(id@),
        path@.len() == 2 * id@.len() + 6,
        path@.take(id@.len() + 1int) == id@.push('/'),
        path@.skip(id@.len() + 1int) == id@ + seq!['.', 'h', 't', 'm', 'l'],
{
    proof {
        reveal_strlit("/");
        reveal_strlit(".html");
        lemma_page_file_in_its_directory(id@);
    }
    let mut path = String::from_str(id);
    path.append("/");
    path.append(id);
    path.append(".html");
    path
}

/// How a request ended.
#[derive(Clone, Copy, Debug, PartialEq, Eq, Structural)]
pub enum FetchOutcome {
    /// A response came back.
    Fetched,
    /// The request timed out.
    TimedOut,
    /// The request failed for another reason.
    Failed,
}

/// What to do once a request has ended.
pub enum FetchAction {
    /// Create the directory `dir` and write the response body to `file`.
    SavePage { dir: String, file: String },
    /// The link was added to the list of failures.
    RecordedTimeout,
    /// Report that the request failed.
    ReportFailure,
}

impl ErrorUrlId {
    /// Handles the end of the request for the link whose id text is `id` and
    /// whose URL is `url`: a response is saved under the link's id, a timeout
    /// adds the link to `errors`, any other failure is only reported.
    pub fn handle_outcome(id: &String, url: String, outcome: FetchOutcome, errors: &mut Vec<
        ErrorUrlId,
    >) -> (action: FetchAction)
        requires
            outcome == FetchOutcome::TimedOut ==> parse_i32_spec(id@) is Some,
        ensures
            outcome == FetchOutcome::Fetched ==> {
                &&& action matches FetchAction::SavePage { dir, file }
                &&& dir@ == id@
                &&& file@ == page_file_text(id@)
                &&& file@.take(dir@.len() + 1int) == dir@.push('/')
                &&& file@.skip(dir@.len() + 1int) == dir@ + seq!['.', 'h', 't', 'm', 'l']
                &&& final(errors)@ == old(errors)@
            },
            outcome == FetchOutcome::TimedOut ==> {
                &&& action is RecordedTimeout
                &&& errors_view(final(errors)@) == errors_view(old(errors)@).push(
                    (parse_i32_spec(id@)->0, url@),
                )
            },
            outcome == FetchOutcome::Failed ==> {
                &&& action is ReportFailure
                &&& final(errors)@ == old(errors)@
            },
    {
        match outcome {
            FetchOutcome::Fetched => {
                FetchAction::SavePage { dir: id.clone(), file: page_file_path(id.as_str()) }
            },
            FetchOutcome::TimedOut => {
                let parsed = parse_i32(id.as_str());
                match parsed {
                    Some(n) => {
                        let ghost before = old(errors)@;
                        errors.push(ErrorUrlId { id: n, url });
                        assert(errors_view(errors@) =~= errors_view(before).push((n, url@)));
                    },
                    None => {},
                }
                FetchAction::RecordedTimeout
            },
            FetchOutcome::Failed => FetchAction::ReportFailure,
        }
    }
}

/// A link whose request timed out is recorded as itself, so retrying the
/// record makes the very request that timed out.
pub proof fn lemma_retry_repeats_request(id: i32, url: Seq<char>)
    ensures
        parse_i32_spec(request_for(id, url).0) == Some(id),
        request_for(parse_i32_spec(request_for(id, url).0)->0, request_for(id, url).1)
            == request_for(id, url),
{
    lemma_parse_decimal_text(id);
}

/// Every request of the plan comes from a fetchable link and reads back as
/// that link: its id text parses to the link's id and its URL is the link's
/// URL, so a request that times out is recorded as its own link.
pub proof fn lemma_plan_requests_read_back(links: Seq<(i32, Seq<char>)>)
    ensures
        fetch_plan_spec(links).len() <= links.len(),
        forall|k: int|
            0 <= k < fetch_plan_spec(links).len() ==> exists|j: int|
                0 <= j < links.len() && is_fetchable(url_parse_result(links[j].1))
                    && #[trigger] fetch_plan_spec(links)[k] == request_for(links[j].0, links[j].1)
                    && parse_i32_spec(fetch_plan_spec(links)[k].0) == Some(links[j].0),
    decreases links.len(),
{
    if links.len() > 0 {
        let prefix = links.drop_last();
        lemma_plan_requests_read_back(prefix);
        let plan = fetch_plan_spec(links);
        let rest = fetch_plan_spec(prefix);
        let last = links.len() - 1;
        lemma_parse_decimal_text(links[last].0);
        assert forall|k: int| 0 <= k < plan.len() implies exists|j: int|
            0 <= j < links.len() && is_fetchable(url_parse_result(links[j].1))
                && #[trigger] plan[k] == request_for(links[j].0, links[j].1)
                && parse_i32_spec(plan[k].0) == Some(links[j].0) by {
            if k < rest.len() {
                assert(plan[k] == rest[k]);
                let j = choose|j: int|
                    0 <= j < prefix.len() && is_fetchable(url_parse_result(prefix[j].1))
                        && #[trigger] rest[k] == request_for(prefix[j].0, prefix[j].1)
                        && parse_i32_spec(rest[k].0) == Some(prefix[j].0);
                assert(prefix[j] == links[j]);
            } else {
                assert(plan[k] == request_for(links[last].0, links[last].1));
            }
        }
    }
}

} // verus!
