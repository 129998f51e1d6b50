//! What server browsers are told.
use crate::legacy::messages::Text;
use crate::text::{integer_value, parse_i32, within};
use vstd::prelude::*;

verus! {

/// The clients that the answer to a browser has room for.
pub const BROWSER_CLIENTS: usize = 16;

/// The clients that a registration announces at most.
pub const REGISTERED_CLIENTS: u32 = 64;

/// The version that browsers see.
pub const BROWSER_VERSION: &'static str = "0.6.4, legacy-server-proxy";

/// A player as the backend describes it.
#[derive(Clone, Debug, PartialEq, Eq)]
pub struct BrowserPlayer {
    pub name: String,
    pub clan: String,
    pub score: String,
}

/// A server as the backend describes it.
#[derive(Clone, Debug, PartialEq, Eq)]
pub struct BrowserInfo {
    pub name: String,
    pub map: String,
    pub game_type: String,
    pub passworded: bool,
    pub max_players: u32,
    pub max_ingame_players: u32,
    pub players: Vec<BrowserPlayer>,
    pub cert_sha256_fingerprint: [u8; 32],
    pub resource_server_url: Option<String>,
}

/// A client as browsers see it.
#[derive(Clone, Debug, PartialEq, Eq)]
pub struct ListedClient<T> {
    pub name: T,
    pub clan: T,
    pub country: i32,
    pub score: i32,
    pub is_player: bool,
}

/// The answer to a browser.
#[derive(Clone, Debug, PartialEq, Eq)]
pub struct InfoResponse<T, C> {
    pub token: i32,
    pub version: T,
    pub name: T,
    pub map: T,
    pub game_type: T,
    pub flags: i32,
    pub num_players: i32,
    pub max_players: i32,
    pub num_clients: i32,
    pub max_clients: i32,
    pub clients: C,
}

/// What the master servers are told.
#[derive(Clone, Debug, PartialEq, Eq)]
pub struct Registration<T, C> {
    pub name: T,
    pub game_type: T,
    pub version: T,
    pub map: T,
    pub passworded: bool,
    pub max_clients: u32,
    pub max_players: u32,
    pub num_clients: usize,
    pub num_players: usize,
    pub clients: C,
}

impl View for ListedClient<String> {
    type V = ListedClient<Text>;

    open spec fn view(&self) -> ListedClient<Text> {
        ListedClient {
            name: self.name@,
            clan: self.clan@,
            country: self.country,
            score: self.score,
            is_player: self.is_player,
        }
    }
}

/// Clients as contracts speak of them.
pub open spec fn listed(clients: Seq<ListedClient<String>>) -> Seq<ListedClient<Text>> {
    clients.map_values(|c: ListedClient<String>| c@)
}

impl View for InfoResponse<String, Vec<ListedClient<String>>> {
    type V = InfoResponse<Text, Seq<ListedClient<Text>>>;

    open spec fn view(&self) -> InfoResponse<Text, Seq<ListedClient<Text>>> {
        InfoResponse {
            token: self.token,
            version: self.version@,
            name: self.name@,
            map: self.map@,
            game_type: self.game_type@,
            flags: self.flags,
            num_players: self.num_players,
            max_players: self.max_players,
            num_clients: self.num_clients,
            max_clients: self.max_clients,
            clients: listed(self.clients@),
        }
    }
}

impl View for Registration<String, Vec<ListedClient<String>>> {
    type V = Registration<Text, Seq<ListedClient<Text>>>;

    open spec fn view(&self) -> Registration<Text, Seq<ListedClient<Text>>> {
        Registration {
            name: self.name@,
            game_type: self.game_type@,
            version: self.version@,
            map: self.map@,
            passworded: self.passworded,
            max_clients: self.max_clients,
            max_players: self.max_players,
            num_clients: self.num_clients,
            num_players: self.num_players,
            clients: listed(self.clients@),
        }
    }
}

/// The number that a score is listed with. One that is no number lists as
/// zero.
pub open spec fn score_shown(score: Text) -> i32 {
    match within(integer_value(score), i32::MIN as int, i32::MAX as int) {
        Some(n) => n as i32,
        None => 0,
    }
}

/// A player as browsers see it. Everyone is listed as playing.
pub open spec fn listed_client(p: BrowserPlayer) -> ListedClient<Text> {
    ListedClient {
        name: p.name@,
        clan: p.clan@,
        country: -1i32,
        score: score_shown(p.score@),
        is_player: true,
    }
}

/// The first `n` players as browsers see them.
pub open spec fn listed_clients(players: Seq<BrowserPlayer>, n: int) -> Seq<ListedClient<Text>> {
    players.take(
        if players.len() < n {
            players.len() as int
        } else {
            n
        },
    ).map_values(|p: BrowserPlayer| listed_client(p))
}

/// A count, at most `limit`.
pub open spec fn at_most(n: int, limit: int) -> int {
    if n < limit {
        n
    } else {
        limit
    }
}

/// The answer to a browser: the first 16 clients, and counts up to 16.
pub open spec fn info_response(token: i32, info: BrowserInfo) -> InfoResponse<
    Text,
    Seq<ListedClient<Text>>,
> {
    let room = BROWSER_CLIENTS as int;
    let count = at_most(info.players@.len() as int, room) as i32;
    InfoResponse {
        token,
        version: BROWSER_VERSION@,
        name: info.name@,
        map: info.map@,
        game_type: info.game_type@,
        flags: if info.passworded {
            1
        } else {
            0
        },
        num_players: count,
        max_players: at_most(info.max_ingame_players as int, room) as i32,
        num_clients: count,
        max_clients: at_most(info.max_players as int, room) as i32,
        clients: listed_clients(info.players@, room),
    }
}

/// What the master servers are told: all clients, and limits up to 64.
pub open spec fn registration_of(info: BrowserInfo) -> Registration<Text, Seq<ListedClient<Text>>> {
    Registration {
        name: info.name@,
        game_type: info.game_type@,
        version: BROWSER_VERSION@,
        map: info.map@,
        passworded: info.passworded,
        max_clients: at_most(info.max_players as int, REGISTERED_CLIENTS as int) as u32,
        max_players: at_most(info.max_ingame_players as int, REGISTERED_CLIENTS as int) as u32,
        num_clients: info.players@.len() as usize,
        num_players: info.players@.len() as usize,
        clients: listed_clients(info.players@, info.players@.len() as int),
    }
}

fn list(players: &Vec<BrowserPlayer>, limit: usize) -> (r: Vec<ListedClient<String>>)
    ensures
        listed(r@) == listed_clients(players@, limit as int),
        r@.len() == at_most(players@.len() as int, limit as int),
{
    let mut clients: Vec<ListedClient<String>> = Vec::new();
    let mut i: usize = 0;
    while i < players.len() && i < limit
        invariant
            i <= players.len(),
            i <= limit,
            clients@.len() == i,
            listed(clients@) =~= players@.take(i as int).map_values(
                |p: BrowserPlayer| listed_client(p),
            ),
        decreases players.len() - i,
    {
        let p = &players[i];
        let score: i32 = match parse_i32(p.score.as_str()) {
            Some(score) => score,
            None => 0,
        };
        let client = ListedClient {
            name: p.name.clone(),
            clan: p.clan.clone(),
            country: -1i32,
            score,
            is_player: true,
        };
        let ghost before = clients@;
        clients.push(client);
        i += 1;
        proof {
            assert(client@ == listed_client(*p));
            assert(listed(clients@) =~= listed(before).push(client@));
            assert(players@.take(i as int) =~= players@.take(i - 1).push(*p));
            assert(players@.take(i as int).map_values(|p: BrowserPlayer| listed_client(p))
                =~= players@.take(i - 1).map_values(|p: BrowserPlayer| listed_client(p)).push(
                listed_client(*p),
            ));
        }
    }
    clients
}

fn least(n: u32, limit: u32) -> (r: u32)
    ensures
        r == at_most(n as int, limit as int),
        r <= limit,
{
    if n < limit {
        n
    } else {
        limit
    }
}

/// The answer to a browser that sent `token`.
pub fn respond(token: i32, info: &BrowserInfo) -> (r: InfoResponse<
    String,
    Vec<ListedClient<String>>,
>)
    ensures
        r@ == info_response(token, *info),
{
    let clients = list(&info.players, BROWSER_CLIENTS);
    let count: i32 = clients.len() as i32;
    InfoResponse {
        token,
        version: BROWSER_VERSION.to_owned(),
        name: info.name.clone(),
        map: info.map.clone(),
        game_type: info.game_type.clone(),
        flags: if info.passworded {
            1
        } else {
            0
        },
        num_players: count,
        max_players: least(info.max_ingame_players, BROWSER_CLIENTS as u32) as i32,
        num_clients: count,
        max_clients: least(info.max_players, BROWSER_CLIENTS as u32) as i32,
        clients,
    }
}

/// What the master servers are told.
pub fn registration(info: &BrowserInfo) -> (r: Registration<String, Vec<ListedClient<String>>>)
    ensures
        r@ == registration_of(*info),
{
    let clients = list(&info.players, info.players.len());
    let count: usize = clients.len();
    Registration {
        name: info.name.clone(),
        game_type: info.game_type.clone(),
        version: BROWSER_VERSION.to_owned(),
        map: info.map.clone(),
        passworded: info.passworded,
        max_clients: least(info.max_players, REGISTERED_CLIENTS),
        max_players: least(info.max_ingame_players, REGISTERED_CLIENTS),
        num_clients: count,
        num_players: count,
        clients,
    }
}

/// The counts of an answer agree with its list of clients, and nothing
/// exceeds the room that browsers have.
pub proof fn counts_match_clients(token: i32, info: BrowserInfo)
    ensures
        info_response(token, info).num_clients == info_response(token, info).clients.len(),
        info_response(token, info).clients.len() <= BROWSER_CLIENTS,
        info_response(token, info).max_clients <= BROWSER_CLIENTS,
        registration_of(info).clients.len() == info.players@.len(),
{
}

/// Browsers see the server under its own name, with its own map and game
/// type, and the answer carries the token that was sent. The flag says
/// whether a password is needed.
pub proof fn browsers_see_the_server(
    token: i32,
    info: BrowserInfo,
    r: InfoResponse<String, Vec<ListedClient<String>>>,
)
    requires
        call_ensures(respond, (token, &info), r),
    ensures
        r.name@ == info.name@,
        r.map@ == info.map@,
        r.game_type@ == info.game_type@,
        r.token == token,
        r.flags == 1 <==> info.passworded,
        r.flags == 0 <==> !info.passworded,
        r.version@ == "0.6.4, legacy-server-proxy"@,
{
    assert(r@ == info_response(token, info));
    assert(r@.name == r.name@ && r@.map == r.map@);
}

/// The master servers see the server as it is.
pub proof fn masters_see_the_server(
    info: BrowserInfo,
    r: Registration<String, Vec<ListedClient<String>>>,
)
    requires
        call_ensures(registration, (&info,), r),
    ensures
        r.name@ == info.name@,
        r.map@ == info.map@,
        r.game_type@ == info.game_type@,
        r.passworded == info.passworded,
        r.version@ == "0.6.4, legacy-server-proxy"@,
{
    assert(r@ == registration_of(info));
}

/// Browsers and master servers are told the same about one server: its name,
/// map, game type and version, whether it needs a password, and the clients
/// that both have room for.
pub proof fn answer_and_registration_agree(
    token: i32,
    info: BrowserInfo,
    answer: InfoResponse<String, Vec<ListedClient<String>>>,
    told: Registration<String, Vec<ListedClient<String>>>,
)
    requires
        call_ensures(respond, (token, &info), answer),
        call_ensures(registration, (&info,), told),
    ensures
        answer.name@ == told.name@,
        answer.map@ == told.map@,
        answer.game_type@ == told.game_type@,
        answer.version@ == told.version@,
        answer.flags == 1 <==> told.passworded,
        answer.clients@.len() <= told.clients@.len(),
        forall|i: int|
            0 <= i < answer.clients@.len() ==> {
                let a = #[trigger] answer.clients@[i];
                let b = told.clients@[i];
                a.name@ == b.name@ && a.clan@ == b.clan@ && a.score == b.score && a.country
                    == b.country && a.is_player == b.is_player
            },
        told.max_clients <= 16 ==> answer.max_clients == told.max_clients,
        told.max_players <= 16 ==> answer.max_players == told.max_players,
        told.num_clients <= 16 ==> answer.num_clients == told.num_clients,
        told.num_players <= 16 ==> answer.num_players == told.num_players,
{
    browsers_see_the_server(token, info, answer);
    masters_see_the_server(info, told);
    answered_clients_are_the_first_players(token, info, answer);
    registered_clients_are_all_players(info, told);
}

/// The number that a text stands for is told exactly if it is an integer of
/// 32 bits, and zero otherwise.
proof fn lemma_score_shown(score: Text)
    ensures
        score_shown(score) != 0 ==> integer_value(score) == Some(score_shown(score) as int),
        (integer_value(score) matches Some(n) && i32::MIN <= n <= i32::MAX) ==> score_shown(score)
            == integer_value(score)->0,
{
}

/// The answer lists the first 16 players in their order, each under its own
/// name and clan with its own score, and counts them. No count or limit
/// exceeds 16, and those that do not are the true ones.
pub proof fn answered_clients_are_the_first_players(
    token: i32,
    info: BrowserInfo,
    r: InfoResponse<String, Vec<ListedClient<String>>>,
)
    requires
        call_ensures(respond, (token, &info), r),
    ensures
        r.clients@.len() <= 16,
        r.clients@.len() <= info.players@.len(),
        r.clients@.len() == 16 || r.clients@.len() == info.players@.len(),
        forall|i: int|
            0 <= i < r.clients@.len() ==> {
                let c = #[trigger] r.clients@[i];
                let p = info.players@[i];
                &&& c.name@ == p.name@
                &&& c.clan@ == p.clan@
                &&& c.country == -1
                &&& c.is_player
                &&& c.score != 0 ==> integer_value(p.score@) == Some(c.score as int)
                &&& (integer_value(p.score@) matches Some(n) && i32::MIN <= n <= i32::MAX)
                    ==> integer_value(p.score@) == Some(c.score as int)
            },
        r.num_clients == r.clients@.len(),
        r.num_players == r.clients@.len(),
        r.max_clients <= 16 && r.max_players <= 16,
        info.max_players <= 16 ==> r.max_clients == info.max_players,
        info.max_players > 16 ==> r.max_clients == 16,
        info.max_ingame_players <= 16 ==> r.max_players == info.max_ingame_players,
        info.max_ingame_players > 16 ==> r.max_players == 16,
{
    assert(r@ == info_response(token, info));
    assert(r@.clients == listed(r.clients@));
    assert(r@.clients.len() == r.clients@.len());
    assert forall|i: int| 0 <= i < r.clients@.len() implies (#[trigger] r.clients@[i])@
        == listed_client(info.players@[i]) by {
        assert(listed(r.clients@)[i] == r.clients@[i]@);
        assert(r@.clients[i] == listed_client(info.players@[i]));
    }
    assert forall|i: int| 0 <= i < r.clients@.len() implies {
        let c = #[trigger] r.clients@[i];
        let p = info.players@[i];
        &&& c.name@ == p.name@
        &&& c.clan@ == p.clan@
        &&& c.country == -1
        &&& c.is_player
        &&& c.score != 0 ==> integer_value(p.score@) == Some(c.score as int)
        &&& (integer_value(p.score@) matches Some(n) && i32::MIN <= n <= i32::MAX)
            ==> integer_value(p.score@) == Some(c.score as int)
    } by {
        assert(r.clients@[i]@ == listed_client(info.players@[i]));
        lemma_score_shown(info.players@[i].score@);
    }
}

/// The registration lists all players in their order, each under its own name
/// and clan with its own score, and counts them. Limits stay below 64.
pub proof fn registered_clients_are_all_players(
    info: BrowserInfo,
    r: Registration<String, Vec<ListedClient<String>>>,
)
    requires
        call_ensures(registration, (&info,), r),
    ensures
        r.clients@.len() == info.players@.len(),
        forall|i: int|
            0 <= i < r.clients@.len() ==> {
                let c = #[trigger] r.clients@[i];
                let p = info.players@[i];
                &&& c.name@ == p.name@
                &&& c.clan@ == p.clan@
                &&& c.country == -1
                &&& c.is_player
                &&& c.score != 0 ==> integer_value(p.score@) == Some(c.score as int)
                &&& (integer_value(p.score@) matches Some(n) && i32::MIN <= n <= i32::MAX)
                    ==> integer_value(p.score@) == Some(c.score as int)
            },
        r.num_clients == info.players@.len(),
        r.num_players == info.players@.len(),
        r.max_clients <= 64 && r.max_players <= 64,
        info.max_players <= 64 ==> r.max_clients == info.max_players,
        info.max_players > 64 ==> r.max_clients == 64,
        info.max_ingame_players <= 64 ==> r.max_players == info.max_ingame_players,
        info.max_ingame_players > 64 ==> r.max_players == 64,
{
    assert(r@ == registration_of(info));
    assert(info.players@.len() == info.players.len());
    assert(r@.clients == listed(r.clients@));
    assert(r@.clients.len() == r.clients@.len());
    assert forall|i: int| 0 <= i < r.clients@.len() implies {
        let c = #[trigger] r.clients@[i];
        let p = info.players@[i];
        &&& c.name@ == p.name@
        &&& c.clan@ == p.clan@
        &&& c.country == -1
        &&& c.is_player
        &&& c.score != 0 ==> integer_value(p.score@) == Some(c.score as int)
        &&& (integer_value(p.score@) matches Some(n) && i32::MIN <= n <= i32::MAX)
            ==> integer_value(p.score@) == Some(c.score as int)
    } by {
        assert(listed(r.clients@)[i] == r.clients@[i]@);
        assert(r@.clients[i] == listed_client(info.players@[i]));
        lemma_score_shown(info.players@[i].score@);
    }
}

} // verus!
