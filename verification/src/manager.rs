//! The exchange manager: the clients by exchange, and the decisions of the
//! heartbeat and reconnect supervisors.

use crate::client::{merged, symbol_views, ClientView, ConnectionState, ExchangeClient};
use crate::formula::{char_views, split, split_on};
use crate::text::{chars_of, i64_of_text, parse_i64, string_from_chars};
use crate::exchange::{exchange_name, Exchange, ExchangeEnum};
use crate::text::string_views;
use crate::text_map::{
    distinct_keys, keyed_map, lemma_keyed_push, lemma_keyed_update, lemma_position_at,
    lemma_position_of, position_of, TextMap,
};
use crate::ticker::no_tickers;
use vstd::prelude::*;

verus! {

/// A symbol as the configuration knows it: the canonical name, the exchange,
/// and the name that the exchange gives it.
#[derive(Debug)]
pub struct Symbol {
    pub id: i64,
    /// The canonical name.
    pub symbol_name: String,
    pub exchange_name: String,
    /// The name on the wire.
    pub third_symbol_name: String,
}

/// The names of a list of symbols on the wire.
pub open spec fn native_names(symbols: Seq<Symbol>) -> Seq<Seq<char>> {
    symbols.map_values(|s: Symbol| s.third_symbol_name@)
}

/// The symbol map of a list of symbols: from the name on the wire to the
/// canonical name, a later symbol replacing an earlier one of the same name
/// on the wire.
pub open spec fn symbol_map_of(symbols: Seq<Symbol>) -> Map<Seq<char>, Seq<char>>
    decreases symbols.len(),
{
    if symbols.len() == 0 {
        Map::empty()
    } else {
        symbol_map_of(symbols.drop_last()).insert(
            symbols.last().third_symbol_name@,
            symbols.last().symbol_name@,
        )
    }
}

/// The address of the public stream of an exchange.
pub open spec fn default_url(exchange: ExchangeEnum) -> Seq<char> {
    match exchange {
        ExchangeEnum::Bitget => "wss://ws.bitget.com/v2/ws/public"@,
        ExchangeEnum::Binance => "wss://stream.binance.com:443/ws/btcusdt@miniTicker"@,
        ExchangeEnum::Okex => "wss://ws.okx.com:8443/ws/v5/public"@,
    }
}

/// The heartbeat message of an exchange; empty where the exchange asks for
/// none.
pub open spec fn default_ping(exchange: ExchangeEnum) -> Seq<char> {
    match exchange {
        ExchangeEnum::Bitget => "ping"@,
        ExchangeEnum::Binance => ""@,
        ExchangeEnum::Okex => "ping"@,
    }
}

/// The time between heartbeats, in milliseconds.
pub const DEFAULT_PING_INTERVAL: u64 = 15_000;

/// Makes the client of an exchange.
pub struct ExchangeFactory;

impl ExchangeFactory {
    /// A client for an exchange, with the address, the heartbeat message and
    /// the heartbeat interval of that exchange.
    pub fn create(exch: ExchangeEnum, symbol_map: TextMap<String>) -> (r: ExchangeClient)
        requires
            symbol_map.wf(),
        ensures
            r.wf(),
            r@ == (ClientView {
                kind: exch,
                name: exchange_name(exch),
                ws_url: default_url(exch),
                subscriptions: Seq::empty(),
                tickers: no_tickers(),
                connected: false,
                state: ConnectionState::Disconnected,
                symbol_map: symbol_views(symbol_map@),
                ping_msg: default_ping(exch),
                ping_interval: DEFAULT_PING_INTERVAL as nat,
            }),
    {
        let exchange = Exchange { name: exch.name().to_owned() };
        let (url, ping) = match exch {
            ExchangeEnum::Bitget => ("wss://ws.bitget.com/v2/ws/public", "ping"),
            ExchangeEnum::Binance => ("wss://stream.binance.com:443/ws/btcusdt@miniTicker", ""),
            ExchangeEnum::Okex => ("wss://ws.okx.com:8443/ws/v5/public", "ping"),
        };
        ExchangeClient::new(
            exch,
            exchange,
            url.to_owned(),
            symbol_map,
            ping.to_owned(),
            DEFAULT_PING_INTERVAL,
        )
    }
}

/// The clients of all exchanges.
///
/// The clients are kept in a vector, in the order in which their exchanges
/// were first added. A client is handed out by reference and worked on in
/// place, and the supervisors walk the clients in that order; a concurrent
/// map hands out guards in place of references and walks its entries in no
/// fixed order. Sharing the manager between tasks is the caller's part.
pub struct ExchangeManager {
    ids: Vec<ExchangeEnum>,
    clients: Vec<ExchangeClient>,
}

/// The states of a list of clients.
pub open spec fn client_views(clients: Seq<ExchangeClient>) -> Seq<ClientView> {
    clients.map_values(|c: ExchangeClient| c@)
}

/// The exchanges, out of `ids`, whose client has the connected flag at
/// `wanted`, in order.
pub open spec fn with_flag(ids: Seq<ExchangeEnum>, clients: Seq<ClientView>, wanted: bool) -> Seq<
    ExchangeEnum,
>
    recommends
        ids.len() == clients.len(),
    decreases ids.len(),
{
    if ids.len() == 0 || clients.len() == 0 {
        Seq::empty()
    } else {
        let front = with_flag(ids.drop_last(), clients.drop_last(), wanted);
        if clients.last().connected == wanted {
            front.push(ids.last())
        } else {
            front
        }
    }
}

/// An exchange is among those with a flag exactly where it has a client
/// with that flag.
pub proof fn lemma_with_flag(ids: Seq<ExchangeEnum>, clients: Seq<ClientView>, wanted: bool)
    requires
        ids.len() == clients.len(),
    ensures
        forall|e: ExchangeEnum|
            with_flag(ids, clients, wanted).contains(e) <==> exists|i: int|
                0 <= i < ids.len() && #[trigger] ids[i] == e && clients[i].connected == wanted,
    decreases ids.len(),
{
    if ids.len() > 0 {
        let front_ids = ids.drop_last();
        let front_clients = clients.drop_last();
        lemma_with_flag(front_ids, front_clients, wanted);
        let all = with_flag(ids, clients, wanted);
        let front = with_flag(front_ids, front_clients, wanted);
        assert forall|e: ExchangeEnum| all.contains(e) <==> exists|i: int|
            0 <= i < ids.len() && #[trigger] ids[i] == e && clients[i].connected == wanted by {
            if all.contains(e) {
                let k = choose|k: int| 0 <= k < all.len() && all[k] == e;
                if k < front.len() {
                    assert(front[k] == e);
                    assert(front.contains(e));
                    let i = choose|i: int|
                        0 <= i < front_ids.len() && #[trigger] front_ids[i] == e
                            && front_clients[i].connected == wanted;
                    assert(ids[i] == e && clients[i].connected == wanted);
                } else {
                    assert(ids[ids.len() - 1] == e);
                }
            }
            if exists|i: int|
                0 <= i < ids.len() && #[trigger] ids[i] == e && clients[i].connected == wanted {
                let i = choose|i: int|
                    0 <= i < ids.len() && #[trigger] ids[i] == e && clients[i].connected == wanted;
                if i == ids.len() - 1 {
                    assert(all[all.len() - 1] == e);
                } else {
                    assert(front_ids[i] == e && front_clients[i].connected == wanted);
                    assert(front.contains(e));
                    let k = choose|k: int| 0 <= k < front.len() && front[k] == e;
                    assert(all[k] == e);
                }
            }
        }
    }
}

/// Whether a list holds exactly the exchanges whose client has the
/// connected flag at `wanted`.
pub open spec fn holds_all_with_flag(
    list: Seq<ExchangeEnum>,
    clients: Map<ExchangeEnum, ClientView>,
    wanted: bool,
) -> bool {
    forall|e: ExchangeEnum|
        #![trigger list.contains(e)]
        #![trigger clients.contains_key(e)]
        list.contains(e) <==> (clients.contains_key(e) && clients[e].connected == wanted)
}

impl View for ExchangeManager {
    type V = Map<ExchangeEnum, ClientView>;

    closed spec fn view(&self) -> Map<ExchangeEnum, ClientView> {
        keyed_map(self.ids@, client_views(self.clients@))
    }
}

impl ExchangeManager {
    /// Whether the manager is well formed: there is one client for an
    /// exchange, and every client is well formed.
    pub closed spec fn wf(&self) -> bool {
        &&& self.ids@.len() == self.clients@.len()
        &&& distinct_keys(self.ids@)
        &&& forall|i: int| 0 <= i < self.clients@.len() ==> (#[trigger] self.clients@[i]).wf()
    }

    /// The exchanges that have a client, in the order in which they were
    /// first added.
    pub closed spec fn exchanges(&self) -> Seq<ExchangeEnum> {
        self.ids@
    }

    /// The states of the clients, each at the position of its exchange.
    pub closed spec fn states(&self) -> Seq<ClientView> {
        client_views(self.clients@)
    }

    /// The exchanges and states are the entries of the view.
    pub proof fn lemma_entries(self)
        requires
            self.wf(),
        ensures
            self.exchanges().len() == self.states().len(),
            distinct_keys(self.exchanges()),
            self@ == keyed_map(self.exchanges(), self.states()),
            forall|i: int|
                0 <= i < self.exchanges().len() ==> self@.contains_key(
                    #[trigger] self.exchanges()[i],
                ) && self@[self.exchanges()[i]] == self.states()[i],
            forall|e: ExchangeEnum| #[trigger]
                self@.contains_key(e) ==> exists|i: int|
                    0 <= i < self.exchanges().len() && #[trigger] self.exchanges()[i] == e,
    {
        assert forall|i: int| 0 <= i < self.exchanges().len() implies self@.contains_key(
            #[trigger] self.exchanges()[i],
        ) && self@[self.exchanges()[i]] == self.states()[i] by {
            lemma_position_at(self.ids@, i);
        }
        assert forall|e: ExchangeEnum| #[trigger] self@.contains_key(e) implies exists|i: int|
            0 <= i < self.exchanges().len() && #[trigger] self.exchanges()[i] == e by {
            lemma_position_of(self.ids@, e);
            let p = position_of(self.ids@, e).unwrap();
            assert(self.exchanges()[p] == e);
        }
    }

    /// A manager without clients.
    pub fn new() -> (r: ExchangeManager)
        ensures
            r.wf(),
            r@ == Map::<ExchangeEnum, ClientView>::empty(),
    {
        let r = ExchangeManager { ids: Vec::new(), clients: Vec::new() };
        proof {
            assert(r@ =~= Map::<ExchangeEnum, ClientView>::empty());
        }
        r
    }

    fn position(&self, exchange: ExchangeEnum) -> (r: Option<usize>)
        requires
            self.wf(),
        ensures
            match r {
                Some(i) => i < self.ids@.len() && self.ids@[i as int] == exchange && position_of(
                    self.ids@,
                    exchange,
                ) == Some(i as int),
                None => position_of(self.ids@, exchange) is None,
            },
    {
        let mut i: usize = 0;
        while i < self.ids.len()
            invariant
                i <= self.ids@.len(),
                distinct_keys(self.ids@),
                forall|j: int| 0 <= j < i ==> self.ids@[j] != exchange,
            decreases self.ids@.len() - i,
        {
            if self.ids[i] == exchange {
                proof {
                    lemma_position_at(self.ids@, i as int);
                }
                return Some(i);
            }
            i = i + 1;
        }
        proof {
            lemma_position_of(self.ids@, exchange);
        }
        None
    }

    /// Takes a client in under an exchange and begins its connection: the
    /// instruments are merged into its subscriptions, and the address to
    /// open comes back. A client that stood under the exchange is replaced.
    pub fn add_exchange(
        &mut self,
        exchange: ExchangeEnum,
        client: ExchangeClient,
        symbols: Vec<String>,
    ) -> (url: String)
        requires
            old(self).wf(),
            client.wf(),
        ensures
            final(self).wf(),
            url@ == client@.ws_url,
            final(self)@ == old(self)@.insert(
                exchange,
                ClientView {
                    subscriptions: merged(client@.subscriptions, string_views(symbols@)),
                    state: ConnectionState::Connecting,
                    ..client@
                },
            ),
    {
        let mut client = client;
        let url = client.begin_connect(Some(symbols));
        let ghost ids0 = self.ids@;
        let ghost views0 = client_views(self.clients@);
        match self.position(exchange) {
            Some(i) => {
                self.clients.set(i, client);
                proof {
                    assert(client_views(self.clients@) =~= views0.update(i as int, client@));
                    lemma_keyed_update(ids0, views0, i as int, client@);
                }
            },
            None => {
                self.ids.push(exchange);
                self.clients.push(client);
                proof {
                    assert(client_views(self.clients@) =~= views0.push(client@));
                    lemma_keyed_push(ids0, views0, exchange, client@);
                }
            },
        }
        url
    }

    /// The client of an exchange.
    pub fn get_client(&self, exchange: ExchangeEnum) -> (r: Option<&ExchangeClient>)
        requires
            self.wf(),
        ensures
            match r {
                Some(c) => self@.contains_key(exchange) && self@[exchange] == c@ && c.wf(),
                None => !self@.contains_key(exchange),
            },
    {
        match self.position(exchange) {
            Some(i) => Some(&self.clients[i]),
            None => None,
        }
    }

    /// The client of an exchange, to work on. What the caller leaves in the
    /// client is what the manager holds for the exchange afterwards.
    pub fn get_client_mut(&mut self, exchange: ExchangeEnum) -> (r: Option<&mut ExchangeClient>)
        requires
            old(self).wf(),
        ensures
            match r {
                Some(c) => {
                    &&& old(self)@.contains_key(exchange)
                    &&& old(self)@[exchange] == c@
                    &&& c.wf()
                    &&& final(self)@ == old(self)@.insert(exchange, final(c)@)
                    &&& final(c).wf() ==> final(self).wf()
                    &&& final(self).exchanges() == old(self).exchanges()
                },
                None => !old(self)@.contains_key(exchange) && *final(self) == *old(self),
            },
    {
        let ghost ids0 = self.ids@;
        let ghost list0 = self.clients@;
        let ghost views0 = client_views(self.clients@);
        match self.position(exchange) {
            Some(i) => {
                proof {
                    assert forall|c: ExchangeClient|
                        keyed_map(ids0, client_views(#[trigger] list0.update(i as int, c)))
                            == keyed_map(ids0, views0).insert(exchange, c@) by {
                        assert(client_views(list0.update(i as int, c)) =~= views0.update(
                            i as int,
                            c@,
                        ));
                        lemma_keyed_update(ids0, views0, i as int, c@);
                    }
                    assert forall|c: ExchangeClient| c.wf() implies forall|j: int|
                        0 <= j < list0.len() ==> (#[trigger] list0.update(i as int, c)[j]).wf() by {
                        assert forall|j: int| 0 <= j < list0.len() implies (
                        #[trigger] list0.update(i as int, c)[j]).wf() by {
                            if j != i {
                                assert(list0[j].wf());
                            }
                        }
                    }
                    lemma_position_at(ids0, i as int);
                }
                Some(&mut self.clients[i])
            },
            None => None,
        }
    }

    /// The exchanges whose client is connected: those that the heartbeat
    /// supervisor sends a heartbeat to.
    pub fn heartbeat_targets(&self) -> (r: Vec<ExchangeEnum>)
        requires
            self.wf(),
        ensures
            r@ == with_flag(self.exchanges(), self.states(), true),
            holds_all_with_flag(r@, self@, true),
    {
        self.targets(true)
    }

    /// The exchanges whose client is not connected: those that the
    /// reconnect supervisor connects again.
    pub fn reconnect_targets(&self) -> (r: Vec<ExchangeEnum>)
        requires
            self.wf(),
        ensures
            r@ == with_flag(self.exchanges(), self.states(), false),
            holds_all_with_flag(r@, self@, false),
    {
        self.targets(false)
    }

    fn targets(&self, wanted: bool) -> (r: Vec<ExchangeEnum>)
        requires
            self.wf(),
        ensures
            r@ == with_flag(self.ids@, client_views(self.clients@), wanted),
            holds_all_with_flag(r@, self@, wanted),
    {
        let mut out: Vec<ExchangeEnum> = Vec::new();
        let ghost views = client_views(self.clients@);
        let mut i: usize = 0;
        proof {
            assert(self.ids@.take(0) =~= Seq::<ExchangeEnum>::empty());
        }
        while i < self.ids.len()
            invariant
                i <= self.ids@.len(),
                self.ids@.len() == self.clients@.len(),
                views == client_views(self.clients@),
                out@ == with_flag(self.ids@.take(i as int), views.take(i as int), wanted),
            decreases self.ids@.len() - i,
        {
            proof {
                assert(self.ids@.take(i + 1).drop_last() =~= self.ids@.take(i as int));
                assert(views.take(i + 1).drop_last() =~= views.take(i as int));
                assert(views.take(i + 1).last() == self.clients@[i as int]@);
            }
            if self.clients[i].is_connected() == wanted {
                out.push(self.ids[i]);
            }
            i = i + 1;
        }
        proof {
            assert(self.ids@.take(i as int) =~= self.ids@);
            assert(views.take(i as int) =~= views);
            let targets = out@;
            let clients = self@;
            assert forall|e: ExchangeEnum|
                #![trigger targets.contains(e)]
                #![trigger clients.contains_key(e)]
                targets.contains(e) <==> (clients.contains_key(e) && clients[e].connected
                    == wanted) by {
                self.lemma_target(wanted, e);
            }
            assert(holds_all_with_flag(targets, clients, wanted));
        }
        out
    }

    /// An exchange is a target exactly where its client has the flag.
    proof fn lemma_target(self, wanted: bool, e: ExchangeEnum)
        requires
            self.wf(),
        ensures
            with_flag(self.ids@, client_views(self.clients@), wanted).contains(e) <==> (
            self@.contains_key(e) && self@[e].connected == wanted),
    {
        let views = client_views(self.clients@);
        lemma_with_flag(self.ids@, views, wanted);
        lemma_position_of(self.ids@, e);
        if self@.contains_key(e) && self@[e].connected == wanted {
            let p = position_of(self.ids@, e).unwrap();
            assert(self.ids@[p] == e && views[p].connected == wanted);
        }
        if with_flag(self.ids@, views, wanted).contains(e) {
            let i = choose|i: int|
                0 <= i < self.ids@.len() && #[trigger] self.ids@[i] == e && views[i].connected
                    == wanted;
            lemma_position_at(self.ids@, i);
        }
    }
}

/// A task as the configuration knows it: an exchange and the ids of the
/// symbols to follow there, separated by commas.
#[derive(Debug)]
pub struct Task {
    pub id: i64,
    pub exchange_name: String,
    pub symbol_ids: String,
    pub is_enabled: bool,
}

/// The id that a piece of a list of ids stands for: a whole number within
/// the range of `i32`; `None` for anything else.
pub open spec fn symbol_id_of(piece: Seq<char>) -> Option<i32> {
    match i64_of_text(piece) {
        Some(v) => if i32::MIN <= v <= i32::MAX {
            Some(v as i32)
        } else {
            None
        },
        None => None,
    }
}

/// The ids among a list of pieces, in order; a piece that is no id is
/// passed over.
pub open spec fn symbol_ids_of(pieces: Seq<Seq<char>>) -> Seq<i32>
    decreases pieces.len(),
{
    if pieces.len() == 0 {
        Seq::empty()
    } else {
        match symbol_id_of(pieces.last()) {
            Some(id) => symbol_ids_of(pieces.drop_last()).push(id),
            None => symbol_ids_of(pieces.drop_last()),
        }
    }
}

/// The symbol ids of a task: the pieces of the text between commas that are
/// ids.
pub open spec fn task_symbol_ids(text: Seq<char>) -> Seq<i32> {
    symbol_ids_of(split_on(text, ','))
}

/// Reads the symbol ids of a task.
pub fn parse_symbol_ids(text: &str) -> (ids: Vec<i32>)
    ensures
        ids@ == task_symbol_ids(text@),
{
    let chars = chars_of(text);
    let pieces = split(&chars, ',');
    let ghost views = char_views(pieces@);
    let mut ids: Vec<i32> = Vec::new();
    let mut i: usize = 0;
    proof {
        assert(views.take(0) =~= Seq::<Seq<char>>::empty());
    }
    while i < pieces.len()
        invariant
            i <= pieces@.len(),
            views == char_views(pieces@),
            ids@ == symbol_ids_of(views.take(i as int)),
        decreases pieces@.len() - i,
    {
        proof {
            assert(views.take(i + 1).drop_last() =~= views.take(i as int));
            assert(views.take(i + 1).last() == pieces@[i as int]@);
        }
        let piece = string_from_chars(&pieces[i]);
        match parse_i64(piece.as_str()) {
            Some(v) => {
                if -2147483648 <= v && v <= 2147483647 {
                    ids.push(v as i32);
                }
            },
            None => {},
        }
        i = i + 1;
    }
    proof {
        assert(views.take(i as int) =~= views);
    }
    ids
}

/// The symbol map of a list of symbols.
pub fn symbol_map_from(symbols: &Vec<Symbol>) -> (map: TextMap<String>)
    ensures
        map.wf(),
        symbol_views(map@) == symbol_map_of(symbols@),
{
    let mut map: TextMap<String> = TextMap::new();
    let mut i: usize = 0;
    proof {
        assert(symbols@.take(0) =~= Seq::<Symbol>::empty());
        assert(symbol_views(map@) =~= Map::<Seq<char>, Seq<char>>::empty());
    }
    while i < symbols.len()
        invariant
            i <= symbols@.len(),
            map.wf(),
            symbol_views(map@) == symbol_map_of(symbols@.take(i as int)),
        decreases symbols@.len() - i,
    {
        proof {
            assert(symbols@.take(i + 1).drop_last() =~= symbols@.take(i as int));
            assert(symbols@.take(i + 1).last() == symbols@[i as int]);
        }
        let ghost before = symbol_views(map@);
        let name = symbols[i].symbol_name.clone();
        map.insert(symbols[i].third_symbol_name.as_str(), name);
        proof {
            assert(symbol_views(map@) =~= before.insert(
                symbols@[i as int].third_symbol_name@,
                symbols@[i as int].symbol_name@,
            ));
        }
        i = i + 1;
    }
    proof {
        assert(symbols@.take(i as int) =~= symbols@);
    }
    map
}

/// The names of a list of symbols on the wire.
pub fn native_names_of(symbols: &Vec<Symbol>) -> (names: Vec<String>)
    ensures
        string_views(names@) == native_names(symbols@),
{
    let mut names: Vec<String> = Vec::new();
    let mut i: usize = 0;
    while i < symbols.len()
        invariant
            i <= symbols@.len(),
            names@.len() == i,
            string_views(names@) == native_names(symbols@).take(i as int),
        decreases symbols@.len() - i,
    {
        let ghost before = string_views(names@);
        names.push(symbols[i].third_symbol_name.clone());
        proof {
            assert(forall|j: int| 0 <= j < i ==> string_views(names@)[j] == before[j]);
            assert(string_views(names@) =~= native_names(symbols@).take(i + 1));
        }
        i = i + 1;
    }
    proof {
        assert(native_names(symbols@).take(i as int) =~= native_names(symbols@));
    }
    names
}

/// An exchange, the symbols to follow there, and the address to open.
#[derive(Debug)]
pub struct Opening {
    pub exchange: ExchangeEnum,
    pub url: String,
}

/// The client that is set up for an exchange and its symbols, as it stands
/// when its connection begins.
pub open spec fn client_for(exchange: ExchangeEnum, symbols: Seq<Symbol>) -> ClientView {
    ClientView {
        kind: exchange,
        name: exchange_name(exchange),
        ws_url: default_url(exchange),
        subscriptions: merged(Seq::empty(), native_names(symbols)),
        tickers: no_tickers(),
        connected: false,
        state: ConnectionState::Connecting,
        symbol_map: symbol_map_of(symbols),
        ping_msg: default_ping(exchange),
        ping_interval: DEFAULT_PING_INTERVAL as nat,
    }
}

/// The clients after a list of exchanges was set up, in order.
pub open spec fn initialized(
    clients: Map<ExchangeEnum, ClientView>,
    tasks: Seq<(ExchangeEnum, Vec<Symbol>)>,
) -> Map<ExchangeEnum, ClientView>
    decreases tasks.len(),
{
    if tasks.len() == 0 {
        clients
    } else {
        initialized(clients, tasks.drop_last()).insert(
            tasks.last().0,
            client_for(tasks.last().0, tasks.last().1@),
        )
    }
}

/// The exchanges of a list of tasks.
pub open spec fn task_exchanges(tasks: Seq<(ExchangeEnum, Vec<Symbol>)>) -> Seq<ExchangeEnum> {
    tasks.map_values(|t: (ExchangeEnum, Vec<Symbol>)| t.0)
}

/// The exchanges of a list of openings.
pub open spec fn opening_exchanges(list: Seq<Opening>) -> Seq<ExchangeEnum> {
    list.map_values(|o: Opening| o.exchange)
}

/// Sets the clients up.
pub struct ExchangeInitializer;

impl ExchangeInitializer {
    /// Sets up a client for every exchange of a list, with the symbols to
    /// follow there, and takes it into the manager. The connections to open
    /// come back, one for each exchange, in order.
    pub fn init(tasks_symbols: &Vec<(ExchangeEnum, Vec<Symbol>)>, manager: &mut ExchangeManager)
        -> (openings: Vec<Opening>)
        requires
            old(manager).wf(),
        ensures
            final(manager).wf(),
            final(manager)@ == initialized(old(manager)@, tasks_symbols@),
            opening_exchanges(openings@) == task_exchanges(tasks_symbols@),
            forall|i: int|
                0 <= i < openings@.len() ==> (#[trigger] openings@[i]).url@ == default_url(
                    openings@[i].exchange,
                ),
    {
        let mut openings: Vec<Opening> = Vec::new();
        let mut i: usize = 0;
        proof {
            assert(tasks_symbols@.take(0) =~= Seq::<(ExchangeEnum, Vec<Symbol>)>::empty());
        }
        while i < tasks_symbols.len()
            invariant
                i <= tasks_symbols@.len(),
                manager.wf(),
                openings@.len() == i,
                manager@ == initialized(old(manager)@, tasks_symbols@.take(i as int)),
                opening_exchanges(openings@) == task_exchanges(tasks_symbols@).take(i as int),
                forall|j: int|
                    0 <= j < openings@.len() ==> (#[trigger] openings@[j]).url@ == default_url(
                        openings@[j].exchange,
                    ),
            decreases tasks_symbols@.len() - i,
        {
            proof {
                assert(tasks_symbols@.take(i + 1).drop_last() =~= tasks_symbols@.take(i as int));
                assert(tasks_symbols@.take(i + 1).last() == tasks_symbols@[i as int]);
            }
            let exchange = tasks_symbols[i].0;
            let symbols = &tasks_symbols[i].1;
            let client = ExchangeFactory::create(exchange, symbol_map_from(symbols));
            let url = manager.add_exchange(exchange, client, native_names_of(symbols));
            let ghost before = opening_exchanges(openings@);
            openings.push(Opening { exchange, url });
            proof {
                assert(forall|j: int| 0 <= j < i ==> opening_exchanges(openings@)[j] == before[j]);
                assert(opening_exchanges(openings@) =~= task_exchanges(tasks_symbols@).take(
                    i + 1,
                ));
            }
            i = i + 1;
        }
        proof {
            assert(tasks_symbols@.take(i as int) =~= tasks_symbols@);
            assert(task_exchanges(tasks_symbols@).take(i as int) =~= task_exchanges(
                tasks_symbols@,
            ));
        }
        openings
    }
}

} // verus!
