//! World state: the player directory keyed by peer address, the last
//! checkpoint and save date, the chat history, and the server-time formatting
//! used by the `gettime` command.

use crate::text::{spec_udec, u64_to_dec};
use vstd::prelude::*;

verus! {

/// The view of the world state, over character sequences.
#[verifier::ext_equal]
pub struct StateV {
    pub players: Seq<(u128, Seq<char>, Seq<char>)>,
    pub checkpoint: Seq<char>,
    pub date: Seq<char>,
    pub chatHistory: Seq<(Seq<char>, Seq<char>)>,
}

/// World state as loaded from and written to the save document: a directory
/// of `(address, name, class)` entries, the last checkpoint label and save
/// date, and the chat history as `(author, text)` pairs.
pub struct State {
    pub playersList: Vec<(u128, String, String)>,
    pub checkpoint: String,
    pub date: String,
    pub chatHistory: Vec<(String, String)>,
}

impl View for State {
    type V = StateV;

    open spec fn view(&self) -> StateV {
        StateV {
            players: self.playersList@.map_values(|p: (u128, String, String)| (p.0, p.1@, p.2@)),
            checkpoint: self.checkpoint@,
            date: self.date@,
            chatHistory: self.chatHistory@.map_values(|e: (String, String)| (e.0@, e.1@)),
        }
    }
}

/// The directory entry for an address: the first matching entry's name and
/// class, or the `noname`/`unknown` defaults.
pub open spec fn spec_player_lookup(players: Seq<(u128, Seq<char>, Seq<char>)>, ip: u128) -> (
    Seq<char>,
    Seq<char>,
)
    decreases players.len(),
{
    if players.len() == 0 {
        ("noname"@, "unknown"@)
    } else if players[0].0 == ip {
        (players[0].1, players[0].2)
    } else {
        spec_player_lookup(players.drop_first(), ip)
    }
}

/// The directory after storing an entry: the first entry with the same
/// address is replaced in place, otherwise the entry is appended.
pub open spec fn spec_players_store(
    players: Seq<(u128, Seq<char>, Seq<char>)>,
    ip: u128,
    name: Seq<char>,
    class: Seq<char>,
) -> Seq<(u128, Seq<char>, Seq<char>)>
    decreases players.len(),
{
    if players.len() == 0 {
        seq![(ip, name, class)]
    } else if players[0].0 == ip {
        seq![(ip, name, class)] + players.drop_first()
    } else {
        seq![players[0]] + spec_players_store(players.drop_first(), ip, name, class)
    }
}

/// Replacing the first entry holding `ip`, when nothing earlier holds it, is
/// what `spec_players_store` does.
proof fn lemma_store_is_update(players: Seq<(u128, Seq<char>, Seq<char>)>, i: int, ip: u128, name: Seq<char>, class: Seq<char>)
    requires
        0 <= i < players.len(),
        players[i].0 == ip,
        forall|k: int| 0 <= k < i ==> players[k].0 != ip,
    ensures
        spec_players_store(players, ip, name, class) =~= players.update(i, (ip, name, class)),
    decreases players.len(),
{
    if i == 0 {
        assert(spec_players_store(players, ip, name, class) =~= players.update(
            0,
            (ip, name, class),
        ));
    } else {
        assert(players.drop_first()[i - 1].0 == ip);
        lemma_store_is_update(players.drop_first(), i - 1, ip, name, class);
    }
}

/// Storing an address nothing holds appends the entry.
proof fn lemma_store_is_push(players: Seq<(u128, Seq<char>, Seq<char>)>, ip: u128, name: Seq<char>, class: Seq<char>)
    requires
        forall|k: int| 0 <= k < players.len() ==> players[k].0 != ip,
    ensures
        spec_players_store(players, ip, name, class) =~= players.push((ip, name, class)),
    decreases players.len(),
{
    if players.len() > 0 {
        lemma_store_is_push(players.drop_first(), ip, name, class);
    }
}

impl State {
    /// A fresh, empty world state.
    pub fn new() -> (r: Self)
        ensures
            r@.players.len() == 0,
            r@.checkpoint.len() == 0,
            r@.date.len() == 0,
            r@.chatHistory.len() == 0,
    {
        State {
            playersList: Vec::new(),
            checkpoint: String::new(),
            date: String::new(),
            chatHistory: Vec::new(),
        }
    }

    /// The stored name and class for a peer address, with defaults for a
    /// stranger.
    #[verifier::loop_isolation(false)]
    pub fn getPlayerInfo(&self, ip: u128) -> (r: (String, String))
        ensures
            (r.0@, r.1@) == spec_player_lookup(self@.players, ip),
    {
        let mut i: usize = 0;
        proof {
            assert(self@.players.skip(0) =~= self@.players);
        }
        while i < self.playersList.len()
            invariant
                i <= self.playersList@.len(),
                spec_player_lookup(self@.players, ip) == spec_player_lookup(
                    self@.players.skip(i as int),
                    ip,
                ),
            decreases self.playersList@.len() - i,
        {
            proof {
                assert(self@.players.skip(i as int).drop_first() =~= self@.players.skip(i + 1));
                assert(self@.players.skip(i as int)[0] == self@.players[i as int]);
            }
            if self.playersList[i].0 == ip {
                return (self.playersList[i].1.clone(), self.playersList[i].2.clone());
            }
            i = i + 1;
        }
        ("noname".to_owned(), "unknown".to_owned())
    }

    /// Stores or replaces the directory entry for a peer address; every other
    /// address resolves as before, and nothing else changes.
    #[verifier::loop_isolation(false)]
    pub fn setPlayerInfo(&mut self, ip: u128, name: String, class: String)
        ensures
            final(self)@.players == spec_players_store(old(self)@.players, ip, name@, class@),
            spec_player_lookup(final(self)@.players, ip) == (name@, class@),
            forall|a: u128|
                a != ip ==> spec_player_lookup(final(self)@.players, a) == spec_player_lookup(
                    old(self)@.players,
                    a,
                ),
            final(self)@.checkpoint == old(self)@.checkpoint,
            final(self)@.date == old(self)@.date,
            final(self)@.chatHistory == old(self)@.chatHistory,
    {
        let mut i: usize = 0;
        while i < self.playersList.len()
            invariant
                i <= self.playersList@.len(),
                forall|k: int| 0 <= k < i ==> self@.players[k].0 != ip,
                self == old(self),
            decreases self.playersList@.len() - i,
        {
            if self.playersList[i].0 == ip {
                self.playersList[i] = (ip, name, class);
                proof {
                    assert(self@.players =~= old(self)@.players.update(
                        i as int,
                        self@.players[i as int],
                    ));
                    assert(self@.players[i as int] == (ip, name@, class@));
                    lemma_store_is_update(old(self)@.players, i as int, ip, name@, class@);
                    lemma_player_lookup_update(old(self)@.players, self@.players, i as int);
                }
                return;
            }
            i = i + 1;
        }
        self.playersList.push((ip, name, class));
        proof {
            assert(self@.players.take(old(self)@.players.len() as int) =~= old(self)@.players);
            assert(self@.players.last() == (ip, name@, class@));
            assert(self@.players =~= old(self)@.players.push((ip, name@, class@)));
            lemma_store_is_push(old(self)@.players, ip, name@, class@);
            lemma_player_lookup_append(old(self)@.players, self@.players);
        }
    }
}

/// How many days the calendar walk grants a month before moving past it:
/// a simple scheme with fixed month lengths and a four-year leap rule.
pub open spec fn spec_month_limit(month: int, leap: bool) -> int {
    if month == 2 || month == 4 || month == 6 || month == 7 || month == 9 || month == 11 || month
        == 12 {
        31
    } else if month == 1 {
        if leap {
            29
        } else {
            28
        }
    } else if month == 3 || month == 5 || month == 8 || month == 10 {
        30
    } else {
        0
    }
}

/// Walks months from `month` while the day count exceeds the month's limit,
/// consuming that many days each step; yields the final month and days.
pub open spec fn spec_month_walk(month: int, days: int, leap: bool) -> (int, int)
    decreases 13 - month,
{
    if 1 <= month <= 12 && days > spec_month_limit(month, leap) {
        spec_month_walk(month + 1, days - spec_month_limit(month, leap), leap)
    } else {
        (month, days)
    }
}

/// Walks years while more than a full year of days remains.
pub open spec fn spec_year_walk(years: int, days: int) -> (int, int)
    decreases days,
{
    if days > 365 {
        spec_year_walk(years + 1, days - 365)
    } else {
        (years, days)
    }
}

/// The name the formatter gives a month position; a position outside the
/// calendar says so.
pub open spec fn spec_month_name(month: int) -> Seq<char> {
    if month == 1 {
        "January"@
    } else if month == 2 {
        "February"@
    } else if month == 3 {
        "March"@
    } else if month == 4 {
        "April"@
    } else if month == 5 {
        "May"@
    } else if month == 6 {
        "June"@
    } else if month == 7 {
        "July"@
    } else if month == 8 {
        "August"@
    } else if month == 9 {
        "September"@
    } else if month == 10 {
        "October"@
    } else if month == 11 {
        "November"@
    } else if month == 12 {
        "December"@
    } else {
        "???"@
    }
}

/// The formatted server time for a count of seconds since the epoch:
/// `"<day> <month> <year> - <hour>:<minute>:<second>"`, where the date comes
/// from four-year blocks of 1461 days walked year by year and month by month.
pub open spec fn spec_date_time(t: int) -> Seq<char> {
    let seconds = t % 60;
    let minutes = (t / 60) % 60;
    let hours = (t / 3600) % 24;
    let days0 = t / 86400;
    let years0 = 1970 + (days0 / 1461) * 4;
    let days1 = days0 % 1461;
    let walked = spec_year_walk(years0, days1);
    let split = spec_month_walk(1, walked.1, walked.0 % 4 == 0);
    spec_udec(split.1) + " "@ + spec_month_name(split.0) + " "@ + spec_udec(walked.0) + " - "@
        + spec_udec(hours) + ":"@ + spec_udec(minutes) + ":"@ + spec_udec(seconds)
}

/// The month name as a borrowed string.
fn month_name(month: u64) -> (r: &'static str)
    ensures
        r@ == spec_month_name(month as int),
{
    proof {
        reveal_strlit("January");
        reveal_strlit("February");
        reveal_strlit("March");
        reveal_strlit("April");
        reveal_strlit("May");
        reveal_strlit("June");
        reveal_strlit("July");
        reveal_strlit("August");
        reveal_strlit("September");
        reveal_strlit("October");
        reveal_strlit("November");
        reveal_strlit("December");
        reveal_strlit("???");
    }
    match month {
        1 => "January",
        2 => "February",
        3 => "March",
        4 => "April",
        5 => "May",
        6 => "June",
        7 => "July",
        8 => "August",
        9 => "September",
        10 => "October",
        11 => "November",
        12 => "December",
        _ => "???",
    }
}

/// Joins the formatted pieces into the date/time text.
fn assemble_date_time(days: u64, month: u64, years: u64, hours: u64, minutes: u64, seconds: u64) -> (r: String)
    ensures
        r@ == spec_udec(days as int) + " "@ + spec_month_name(month as int) + " "@ + spec_udec(
            years as int,
        ) + " - "@ + spec_udec(hours as int) + ":"@ + spec_udec(minutes as int) + ":"@ + spec_udec(
            seconds as int,
        ),
{
    let mut out = u64_to_dec(days);
    out.append(" ");
    out.append(month_name(month));
    out.append(" ");
    out.append(u64_to_dec(years).as_str());
    out.append(" - ");
    out.append(u64_to_dec(hours).as_str());
    out.append(":");
    out.append(u64_to_dec(minutes).as_str());
    out.append(":");
    out.append(u64_to_dec(seconds).as_str());
    out
}

/// Renders a count of seconds since the epoch as the server's date/time text.
#[verifier::loop_isolation(false)]
#[verifier::rlimit(60)]
pub fn formatDateTime(t: u64) -> (r: String)
    ensures
        r@ == spec_date_time(t as int),
{
    let seconds: u64 = t % 60;
    let minutes: u64 = (t / 60) % 60;
    let hours: u64 = (t / 3600) % 24;
    let days0: u64 = t / 86400;
    let mut years: u64 = 1970 + (days0 / 1461) * 4;
    let mut days: u64 = days0 % 1461;
    let ghost y_init: int = years as int;
    let ghost d_init: int = days as int;
    while days > 365
        invariant
            spec_year_walk(y_init, d_init) == spec_year_walk(years as int, days as int),
            days as int + 365 * (years as int - y_init) == d_init,
            d_init <= 1460,
        decreases days,
    {
        years = years + 1;
        days = days - 365;
    }
    proof {
        assert(spec_year_walk(years as int, days as int) == (years as int, days as int));
    }
    let leap: bool = years % 4 == 0;
    let mut month: u64 = 1;
    let ghost walked_days: int = days as int;
    while 1 <= month && month <= 12 && days > month_limit(month, leap)
        invariant
            1 <= month <= 13,
            days <= walked_days,
            spec_month_walk(1, walked_days, leap) == spec_month_walk(
                month as int,
                days as int,
                leap,
            ),
        decreases 13 - month,
    {
        days = days - month_limit(month, leap);
        month = month + 1;
    }
    proof {
        assert(spec_month_walk(month as int, days as int, leap) == (month as int, days as int));
    }
    assemble_date_time(days, month, years, hours, minutes, seconds)
}

/// The day limit of a month, as executable code.
fn month_limit(month: u64, leap: bool) -> (r: u64)
    ensures
        r == spec_month_limit(month as int, leap),
{
    if month == 2 || month == 4 || month == 6 || month == 7 || month == 9 || month == 11 || month
        == 12 {
        31
    } else if month == 1 {
        if leap {
            29
        } else {
            28
        }
    } else if month == 3 || month == 5 || month == 8 || month == 10 {
        30
    } else {
        0
    }
}

/// Relies on `std::time::SystemTime::now` and `duration_since`: yields the
/// seconds since the epoch, zero when the clock stands before it. Nothing is
/// assumed of the value.
#[verifier::external_body]
pub(crate) fn now_seconds() -> u64 {
    match std::time::SystemTime::now().duration_since(std::time::UNIX_EPOCH) {
        Ok(t) => t.as_secs(),
        Err(_) => 0,
    }
}

impl State {
    /// The current server time, formatted. The clock is read once; whatever
    /// it said is rendered with `formatDateTime`.
    pub fn getDateTime() -> (r: String)
        ensures
            exists|t: int| 0 <= t && r@ == #[trigger] spec_date_time(t),
    {
        let now = now_seconds();
        let r = formatDateTime(now);
        proof {
            assert(0 <= now as int && r@ == spec_date_time(now as int));
        }
        r
    }
}

/// After replacing directory entry `i`, whose address equals the old one and
/// occurs nowhere earlier, that address resolves to the new data and every
/// other address as before.
proof fn lemma_player_lookup_update(
    before: Seq<(u128, Seq<char>, Seq<char>)>,
    after: Seq<(u128, Seq<char>, Seq<char>)>,
    i: int,
)
    requires
        0 <= i < before.len(),
        after == before.update(i, after[i]),
        before[i].0 == after[i].0,
        forall|k: int| 0 <= k < i ==> before[k].0 != after[i].0,
    ensures
        spec_player_lookup(after, after[i].0) == (after[i].1, after[i].2),
        forall|a: u128|
            a != after[i].0 ==> spec_player_lookup(after, a) == spec_player_lookup(before, a),
    decreases before.len(),
{
    if i == 0 {
        assert(after.drop_first() =~= before.drop_first());
    } else {
        assert(after[0] == before[0]);
        assert(after.drop_first() =~= before.drop_first().update(i - 1, after[i]));
        assert(after.drop_first()[i - 1] == after[i]);
        lemma_player_lookup_update(before.drop_first(), after.drop_first(), i - 1);
    }
    assert forall|a: u128| a != after[i].0 implies spec_player_lookup(after, a)
        == spec_player_lookup(before, a) by {
        if i == 0 {
            assert(after.drop_first() =~= before.drop_first());
            assert(spec_player_lookup(after, a) == spec_player_lookup(after.drop_first(), a));
            assert(spec_player_lookup(before, a) == spec_player_lookup(before.drop_first(), a));
        } else {
            assert(spec_player_lookup(after.drop_first(), a) == spec_player_lookup(
                before.drop_first(),
                a,
            ));
            assert(after[0] == before[0]);
        }
    }
}

/// Appending a directory entry for a new address makes it resolve to the new
/// data and leaves every other address as before.
proof fn lemma_player_lookup_append(
    before: Seq<(u128, Seq<char>, Seq<char>)>,
    after: Seq<(u128, Seq<char>, Seq<char>)>,
)
    requires
        after.len() == before.len() + 1,
        after.take(before.len() as int) == before,
        forall|k: int| 0 <= k < before.len() ==> before[k].0 != after.last().0,
    ensures
        spec_player_lookup(after, after.last().0) == (after.last().1, after.last().2),
        forall|a: u128|
            a != after.last().0 ==> spec_player_lookup(after, a) == spec_player_lookup(before, a),
    decreases before.len(),
{
    if before.len() == 0 {
        assert(after.drop_first() =~= Seq::<(u128, Seq<char>, Seq<char>)>::empty());
        assert forall|a: u128| a != after.last().0 implies spec_player_lookup(after, a)
            == spec_player_lookup(before, a) by {
            assert(after[0] == after.last());
            assert(spec_player_lookup(after, a) == spec_player_lookup(after.drop_first(), a));
        }
    } else {
        assert(after[0] == before[0]);
        assert(after.drop_first().take(before.len() - 1) =~= before.drop_first());
        assert(after.drop_first().last() == after.last());
        lemma_player_lookup_append(before.drop_first(), after.drop_first());
        assert forall|a: u128| a != after.last().0 implies spec_player_lookup(after, a)
            == spec_player_lookup(before, a) by {
            assert(spec_player_lookup(after.drop_first(), a) == spec_player_lookup(
                before.drop_first(),
                a,
            ));
        }
    }
}

} // verus!
