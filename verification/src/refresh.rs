//! Building the rate cache: what to read, what to fetch, and what to keep.
//!
//! The cache is built one currency at a time. For each currency other than
//! the base currency the stored series is asked for first. A series that is
//! missing, unreadable or empty is fetched whole; one whose last observation
//! is older than today is given the observations since that day; one that is
//! up to date is kept as it is. Reading and fetching are the caller's work:
//! [`Init`] only decides, from what came back, what to ask for next.

use crate::calendar::Date;
use crate::currency_exchange::{entry_views, table_of, CurrencyExchange};
use crate::financial::{Currency, BASE_CURRENCY, CURRENCY_COUNT};
use crate::series::{appended, day_number_of, readings, Observation, RawSeries, Reading};
use vstd::prelude::*;
use vstd::string::StringExecFns;

verus! {

/// The readings of a source that quotes the base currency in units of the
/// other currency, turned into rates of that currency in the base currency:
/// each rate inverted, the days kept.
pub open spec fn inverted(quotes: Seq<Reading>) -> Seq<Reading> {
    Seq::new(quotes.len(), |i: int| Reading { day: quotes[i].day, rate: quotes[i].rate.inverse() })
}

/// Turns the observations of a source that quotes the base currency in units
/// of the other currency into rates of that currency in the base currency.
pub fn invert_quotes(quotes: &Vec<Observation>) -> (r: Vec<Observation>)
    ensures
        readings(r@) == inverted(readings(quotes@)),
{
    let mut r: Vec<Observation> = Vec::new();
    let mut i: usize = 0;
    while i < quotes.len()
        invariant
            i <= quotes.len(),
            r@.len() == i,
            forall|k: int|
                0 <= k < i ==> (#[trigger] r@[k])@ == (Reading {
                    day: quotes@[k]@.day,
                    rate: quotes@[k]@.rate.inverse(),
                }),
        decreases quotes.len() - i,
    {
        let quote: Observation = quotes[i];
        r.push(Observation { date: quote.date, rate: quote.rate.inverse() });
        i = i + 1;
    }
    proof {
        assert(readings(r@) =~= inverted(readings(quotes@)));
    }
    r
}

/// The day from which a stored series has to be brought up to date: the day of
/// its last observation, where that is before `today`; `None` where the series
/// is up to date or empty.
pub fn stale_since(series: &RawSeries, today: Date) -> (r: Option<Date>)
    ensures
        r.is_some() <==> series@.len() > 0 && series@.last().day < today.day_number(),
        r matches Some(date) ==> date.day_number() == series@.last().day,
{
    match series.last_date() {
        Some(last) => if last.is_before(&today) {
            Some(last)
        } else {
            None
        },
        None => None,
    }
}

/// The address under which the European Central Bank serves the daily
/// reference rates of a currency, from a day on where one is given.
pub open spec fn download_url_text(currency: Currency, since: Option<int>) -> Seq<char> {
    "https://data-api.ecb.europa.eu/service/data/EXR/D."@ + currency.code_text() + "."@
        + BASE_CURRENCY.code_text() + ".SP00.A?format=csvdata&detail=dataonly"@ + match since {
        Some(day) => "&startPeriod="@ + crate::calendar::iso_text(day),
        None => Seq::<char>::empty(),
    }
}

/// The address from which to download the rates of `currency`, all of them or
/// those from `from_date` on.
pub fn download_url(currency: &Currency, from_date: Option<Date>) -> (r: String)
    ensures
        r@ == download_url_text(*currency, day_number_of(from_date)),
{
    let mut url: String = String::from_str("https://data-api.ecb.europa.eu/service/data/EXR/D.");
    url.append(currency.code());
    url.append(".");
    url.append(BASE_CURRENCY.code());
    url.append(".SP00.A?format=csvdata&detail=dataonly");
    match from_date {
        Some(date) => {
            url.append("&startPeriod=");
            let text: String = date.to_text();
            url.append(text.as_str());
        },
        None => {
            assert(url@ + Seq::<char>::empty() =~= url@);
        },
    }
    url
}

/// The name under which the series of a pair of currencies is kept: the two
/// codes, one after the other.
pub fn key(currency_from: &Currency, currency_to: &Currency) -> (r: String)
    ensures
        r@ == currency_from.code_text() + currency_to.code_text(),
{
    String::from_str(currency_from.code()).concat(currency_to.code())
}

/// The path of the file that holds the series of `currency` against the base
/// currency.
pub fn cache_file_name(currency: &Currency) -> (r: String)
    ensures
        r@ == "data/exchange_rate_"@ + currency.code_text() + BASE_CURRENCY.code_text() + ".csv"@,
{
    let mut name: String = String::from_str("data/exchange_rate_");
    name.append(currency.code());
    name.append(BASE_CURRENCY.code());
    name.append(".csv");
    name
}

/// The currencies whose series are to be written out when a cache is saved:
/// those that have a series with at least one observation, in the order of
/// [`Currency::all`]. The expansions are never written.
pub fn series_to_save(exchange: &CurrencyExchange) -> (r: Vec<Currency>)
    ensures
        forall|currency: Currency|
            r@.contains(currency) <==> exchange@.has(currency) && exchange@.raw[currency].len()
                > 0,
        forall|i: int, j: int|
            0 <= i < j < r@.len() ==> (#[trigger] r@[i]).position() < (#[trigger] r@[j]).position(),
{
    let all: Vec<Currency> = Currency::all();
    let mut r: Vec<Currency> = Vec::new();
    let mut i: usize = 0;
    while i < all.len()
        invariant
            i <= all.len(),
            all@ == Currency::every(),
            forall|currency: Currency|
                r@.contains(currency) <==> currency.position() < i && exchange@.has(currency)
                    && exchange@.raw[currency].len() > 0,
            forall|a: int, b: int|
                0 <= a < b < r@.len() ==> (#[trigger] r@[a]).position() < (
                #[trigger] r@[b]).position(),
        decreases all.len() - i,
    {
        let currency: Currency = all[i];
        let keep: bool = match exchange.raw_series(&currency) {
            Some(series) => !series.is_empty(),
            None => false,
        };
        if keep {
            let ghost before = r@;
            r.push(currency);
            proof {
                assert forall|c: Currency| r@.contains(c) <==> c.position() < i + 1
                    && exchange@.has(c) && exchange@.raw[c].len() > 0 by {
                    if r@.contains(c) {
                        let k = choose|k: int| 0 <= k < r@.len() && r@[k] == c;
                        if k < before.len() {
                            assert(before[k] == c);
                            assert(before.contains(c));
                        }
                    }
                    if c.position() < i + 1 && exchange@.has(c) && exchange@.raw[c].len() > 0 {
                        if c.position() < i {
                            assert(before.contains(c));
                            let k = choose|k: int| 0 <= k < before.len() && before[k] == c;
                            assert(r@[k] == c);
                        } else {
                            assert(c == currency);
                            assert(r@[r@.len() - 1] == c);
                        }
                    }
                }
                assert forall|a: int, b: int| 0 <= a < b < r@.len() implies (#[trigger] r@[a]).position()
                    < (#[trigger] r@[b]).position() by {
                    if b == r@.len() - 1 {
                        assert(before[a] == r@[a]);
                        assert(before.contains(r@[a]));
                    } else {
                        assert(before[a] == r@[a]);
                        assert(before[b] == r@[b]);
                    }
                }
            }
        } else {
            proof {
                assert forall|c: Currency| r@.contains(c) <==> c.position() < i + 1
                    && exchange@.has(c) && exchange@.raw[c].len() > 0 by {
                    if c.position() == i {
                        assert(c == currency);
                    }
                }
            }
        }
        i = i + 1;
    }
    r
}

/// Where the building of a cache stands.
#[derive(Clone, Copy, Debug, PartialEq, Eq, Structural)]
pub enum InitPhase {
    /// The stored series of the current currency was asked for.
    Loading,
    /// Observations of the current currency were asked of the source.
    Fetching,
    /// Every currency has its series.
    Finished,
    /// The source failed, or an answer came that was not asked for.
    Failed,
}

/// What the caller is asked to do next.
#[derive(Clone, Copy, Debug, PartialEq, Eq, Structural)]
pub enum InitRequest {
    /// Read the stored series of `currency`.
    Load { currency: Currency },
    /// Fetch the observations of `currency` from the source: all of them, or
    /// those from `since` on.
    Fetch { currency: Currency, since: Option<Date> },
    /// Nothing: the cache can be built.
    Done,
}

/// What the caller reports back.
pub enum InitEvent {
    /// The stored series was read.
    Loaded { series: RawSeries },
    /// There is no stored series, or it cannot be read.
    NotLoaded,
    /// The source answered with these observations, quoted as the source
    /// quotes: units of the currency for one unit of the base currency.
    Fetched { quotes: Vec<Observation> },
    /// The source could not be reached or its answer not be read.
    FetchFailed,
}

/// Why the building of a cache stopped.
#[derive(Clone, Copy, Debug, PartialEq, Eq, Structural)]
pub enum InitError {
    /// The source failed for `currency`. Nothing is put in the place of the
    /// series that could not be had.
    FetchFailed { currency: Currency },
    /// The event is not an answer to the request that is open.
    UnexpectedEvent,
}

/// What an [`InitRequest`] stands for.
pub enum RequestView {
    Load { currency: Currency },
    Fetch { currency: Currency, since: Option<int> },
    Done,
}

/// What an [`InitEvent`] stands for.
pub enum EventView {
    Loaded { series: Seq<Reading> },
    NotLoaded,
    Fetched { quotes: Seq<Reading> },
    FetchFailed,
}

impl View for InitRequest {
    type V = RequestView;

    open spec fn view(&self) -> RequestView {
        match *self {
            InitRequest::Load { currency } => RequestView::Load { currency },
            InitRequest::Fetch { currency, since } => RequestView::Fetch {
                currency,
                since: day_number_of(since),
            },
            InitRequest::Done => RequestView::Done,
        }
    }
}

impl View for InitEvent {
    type V = EventView;

    open spec fn view(&self) -> EventView {
        match *self {
            InitEvent::Loaded { series } => EventView::Loaded { series: series@ },
            InitEvent::NotLoaded => EventView::NotLoaded,
            InitEvent::Fetched { quotes } => EventView::Fetched { quotes: readings(quotes@) },
            InitEvent::FetchFailed => EventView::FetchFailed,
        }
    }
}

/// What an [`Init`] stands for: today, the position of the current currency
/// in [`Currency::every`], the phase, the stored series that waits for its
/// newer observations, and the series gathered so far.
pub struct InitView {
    pub today: int,
    pub position: int,
    pub phase: InitPhase,
    pub held: Seq<Reading>,
    pub collected: Seq<(Currency, Seq<Reading>)>,
}

/// The first position from `position` on that is not that of the base
/// currency.
pub open spec fn skip_base(position: int) -> int {
    if 0 <= position < Currency::every().len() && Currency::every()[position] == BASE_CURRENCY {
        position + 1
    } else {
        position
    }
}

impl InitView {
    /// The state at the beginning, before the first request.
    pub open spec fn initial(today: int) -> InitView {
        InitView {
            today,
            position: skip_base(0),
            phase: if skip_base(0) < Currency::every().len() {
                InitPhase::Loading
            } else {
                InitPhase::Finished
            },
            held: Seq::empty(),
            collected: Seq::empty(),
        }
    }

    /// The currency that is being worked on.
    pub open spec fn currency(self) -> Currency {
        Currency::every()[self.position]
    }

    /// The request that is open in this state.
    pub open spec fn open_request(self) -> RequestView {
        match self.phase {
            InitPhase::Loading => RequestView::Load { currency: self.currency() },
            InitPhase::Fetching => RequestView::Fetch {
                currency: self.currency(),
                since: if self.held.len() > 0 {
                    Some(self.held.last().day)
                } else {
                    None
                },
            },
            _ => RequestView::Done,
        }
    }

    /// The state after the current currency got `series`: on to the next
    /// currency, or finished.
    pub open spec fn with_series(self, series: Seq<Reading>) -> InitView {
        let next = skip_base(self.position + 1);
        InitView {
            today: self.today,
            position: next,
            phase: if next < Currency::every().len() {
                InitPhase::Loading
            } else {
                InitPhase::Finished
            },
            held: Seq::empty(),
            collected: self.collected.push((self.currency(), series)),
        }
    }

    /// The state in which the observations for `held` are awaited.
    pub open spec fn fetching(self, held: Seq<Reading>) -> InitView {
        InitView { phase: InitPhase::Fetching, held, ..self }
    }

    /// The state after a failure.
    pub open spec fn failed(self) -> InitView {
        InitView { phase: InitPhase::Failed, held: Seq::empty(), ..self }
    }

    /// The state that follows on `event`, and the failure if there is one.
    ///
    /// While loading: a stored series whose last observation is dated today or
    /// later is kept as it is; one that is older waits for the observations
    /// since its last day; a missing, unreadable or empty one is fetched whole.
    /// While fetching: the observations are inverted and appended by date to
    /// what was stored; a failure of the source ends the building. Any other
    /// event, in any phase, ends it too.
    pub open spec fn after(self, event: EventView) -> (InitView, Option<InitError>) {
        match (self.phase, event) {
            (InitPhase::Loading, EventView::Loaded { series }) => if series.len() > 0
                && series.last().day >= self.today {
                (self.with_series(series), None)
            } else if series.len() > 0 {
                (self.fetching(series), None)
            } else {
                (self.fetching(Seq::empty()), None)
            },
            (InitPhase::Loading, EventView::NotLoaded) => (self.fetching(Seq::empty()), None),
            (InitPhase::Fetching, EventView::Fetched { quotes }) => (
                self.with_series(appended(self.held, inverted(quotes))),
                None,
            ),
            (InitPhase::Fetching, EventView::FetchFailed) => (
                self.failed(),
                Some(InitError::FetchFailed { currency: self.currency() }),
            ),
            _ => (self.failed(), Some(InitError::UnexpectedEvent)),
        }
    }

    /// The position is that of a currency other than the base currency while
    /// there is work to do, and the series gathered so far are those of the
    /// currencies before it, one each and in their order.
    pub open spec fn well_formed(self) -> bool {
        &&& 1 <= self.position <= Currency::every().len()
        &&& self.collected.len() == self.position - 1
        &&& forall|k: int|
            0 <= k < self.collected.len() ==> (#[trigger] self.collected[k]).0
                == Currency::every()[k + 1]
        &&& (self.phase == InitPhase::Loading || self.phase == InitPhase::Fetching)
            ==> self.position < Currency::every().len()
        &&& self.phase == InitPhase::Finished ==> self.position == Currency::every().len()
        &&& self.phase != InitPhase::Fetching ==> self.held.len() == 0
    }
}

/// A step keeps a state well formed.
pub proof fn lemma_step_keeps_well_formed(state: InitView, event: EventView)
    requires
        state.well_formed(),
    ensures
        state.after(event).0.well_formed(),
        InitView::initial(state.today).well_formed(),
{
}

/// Every entry of a list whose currency is not the base currency leaves a
/// series for that currency in the table.
pub proof fn lemma_table_has_entries(entries: Seq<(Currency, Seq<Reading>)>, k: int)
    requires
        0 <= k < entries.len(),
        entries[k].0 != BASE_CURRENCY,
    ensures
        table_of(entries).dom().contains(entries[k].0),
    decreases entries.len(),
{
    if k < entries.len() - 1 {
        lemma_table_has_entries(entries.drop_last(), k);
    }
}

/// The building of a rate cache, as a machine that is told what happened and
/// says what to do next.
pub struct Init {
    today: Date,
    position: usize,
    phase: InitPhase,
    held: RawSeries,
    collected: Vec<(Currency, RawSeries)>,
}

impl View for Init {
    type V = InitView;

    closed spec fn view(&self) -> InitView {
        InitView {
            today: self.today.day_number(),
            position: self.position as int,
            phase: self.phase,
            held: self.held@,
            collected: entry_views(self.collected@),
        }
    }
}

impl Init {
    #[verifier::type_invariant]
    spec fn sound(self) -> bool {
        self@.well_formed()
    }

    /// The machine at its beginning, as of `today`.
    pub fn begin(today: Date) -> (r: Init)
        ensures
            r@ == InitView::initial(today.day_number()),
            r@.well_formed(),
    {
        let r = Init {
            today,
            position: 1,
            phase: InitPhase::Loading,
            held: RawSeries::new(),
            collected: Vec::new(),
        };
        proof {
            assert(r@.collected =~= Seq::empty());
            assert(r@.held =~= Seq::empty());
        }
        r
    }

    /// The phase that the machine is in.
    pub fn phase(&self) -> (r: InitPhase)
        ensures
            r == self@.phase,
            self@.well_formed(),
    {
        proof {
            use_type_invariant(self);
        }
        self.phase
    }

    /// The request that is open: what the caller has to do and report on.
    pub fn request(&self) -> (r: InitRequest)
        ensures
            r@ == self@.open_request(),
    {
        proof {
            use_type_invariant(self);
        }
        match self.phase {
            InitPhase::Loading => {
                let all: Vec<Currency> = Currency::all();
                InitRequest::Load { currency: all[self.position] }
            },
            InitPhase::Fetching => {
                let all: Vec<Currency> = Currency::all();
                InitRequest::Fetch { currency: all[self.position], since: self.held.last_date() }
            },
            _ => InitRequest::Done,
        }
    }

    /// Takes the answer to the open request and moves on. The new state is the
    /// one that [`InitView::after`] gives; the failure, if any, is returned
    /// beside it, and the machine then stays failed.
    pub fn step(self, event: InitEvent) -> (r: (Init, Option<InitError>))
        ensures
            (r.0@, r.1) == self@.after(event@),
    {
        proof {
            use_type_invariant(&self);
            lemma_step_keeps_well_formed(self@, event@);
        }
        let ghost old_view = self@;
        let ghost event_view = event@;
        let Init { today, position, phase, held, collected } = self;
        let all: Vec<Currency> = Currency::all();
        match (phase, event) {
            (InitPhase::Loading, InitEvent::Loaded { series }) => {
                match stale_since(&series, today) {
                    Some(_) => {
                        let r = Init {
                            today,
                            position,
                            phase: InitPhase::Fetching,
                            held: series,
                            collected,
                        };
                        (r, None)
                    },
                    None => {
                        if series.is_empty() {
                            let r = Init {
                                today,
                                position,
                                phase: InitPhase::Fetching,
                                held: RawSeries::new(),
                                collected,
                            };
                            proof {
                                assert(r@.held =~= Seq::empty());
                            }
                            (r, None)
                        } else {
                            Init::advance(today, position, collected, series, Ghost(old_view))
                        }
                    },
                }
            },
            (InitPhase::Loading, InitEvent::NotLoaded) => {
                let r = Init {
                    today,
                    position,
                    phase: InitPhase::Fetching,
                    held: RawSeries::new(),
                    collected,
                };
                proof {
                    assert(r@.held =~= Seq::empty());
                }
                (r, None)
            },
            (InitPhase::Fetching, InitEvent::Fetched { quotes }) => {
                let tail: Vec<Observation> = invert_quotes(&quotes);
                let mut series: RawSeries = held;
                series.append(&tail);
                Init::advance(today, position, collected, series, Ghost(old_view))
            },
            (InitPhase::Fetching, InitEvent::FetchFailed) => {
                let currency: Currency = all[position];
                let r = Init {
                    today,
                    position,
                    phase: InitPhase::Failed,
                    held: RawSeries::new(),
                    collected,
                };
                proof {
                    assert(r@.held =~= Seq::empty());
                }
                (r, Some(InitError::FetchFailed { currency }))
            },
            _ => {
                let r = Init {
                    today,
                    position,
                    phase: InitPhase::Failed,
                    held: RawSeries::new(),
                    collected,
                };
                proof {
                    assert(r@.held =~= Seq::empty());
                }
                (r, Some(InitError::UnexpectedEvent))
            },
        }
    }

    fn advance(
        today: Date,
        position: usize,
        collected: Vec<(Currency, RawSeries)>,
        series: RawSeries,
        Ghost(before): Ghost<InitView>,
    ) -> (r: (Init, Option<InitError>))
        requires
            before.well_formed(),
            before.position < Currency::every().len(),
            before.today == today.day_number(),
            before.position == position,
            before.collected == entry_views(collected@),
        ensures
            r.0@ == before.with_series(series@),
            r.1 is None,
    {
        let all: Vec<Currency> = Currency::all();
        let currency: Currency = all[position];
        let mut collected = collected;
        let ghost series_view = series@;
        collected.push((currency, series));
        let next: usize = position + 1;
        let phase: InitPhase = if next < all.len() {
            InitPhase::Loading
        } else {
            InitPhase::Finished
        };
        proof {
            assert(entry_views(collected@) =~= before.collected.push((currency, series_view)));
            assert(before.with_series(series_view).well_formed());
        }
        let r = Init { today, position: next, phase, held: RawSeries::new(), collected };
        proof {
            assert(r@.held =~= Seq::empty());
        }
        (r, None)
    }

    /// The cache of the series that were gathered, once the machine has
    /// finished; `None` while it has not, or after a failure. In the cache
    /// every currency other than the base currency has a series, so no pair
    /// of currencies is unresolvable.
    pub fn finish(&self) -> (r: Option<CurrencyExchange>)
        ensures
            r.is_some() <==> self@.phase == InitPhase::Finished,
            r matches Some(exchange) ==> exchange@.as_of == self@.today && exchange@.raw
                == table_of(self@.collected) && forall|currency: Currency|
                currency != BASE_CURRENCY ==> #[trigger] exchange@.has(currency),
    {
        proof {
            use_type_invariant(self);
        }
        match self.phase {
            InitPhase::Finished => {
                let exchange: CurrencyExchange = CurrencyExchange::as_of(
                    &self.collected,
                    self.today,
                );
                proof {
                    assert forall|currency: Currency| currency != BASE_CURRENCY implies #[trigger]
                        exchange@.has(currency) by {
                        let k = currency.position() - 1;
                        assert(self@.collected[k].0 == Currency::every()[k + 1]);
                        lemma_table_has_entries(self@.collected, k);
                    }
                }
                Some(exchange)
            },
            _ => None,
        }
    }
}

} // verus!
