//! Train connections: stations and their codes, the day to ask for, and the rows of an answer.

use vstd::prelude::*;

use crate::calendar;
use crate::clock;
use crate::json;
use crate::json::JsonTree;
use crate::prompt;
use crate::text;
use crate::text::CharClass;

verus! {

pub const INIT_URL: &'static str = "https://kyfw.12306.cn/otn/leftTicket/init";

pub const QUERY_URL: &'static str = "https://kyfw.12306.cn/otn/leftTicket/queryG";

pub const STATION_JS_URL: &'static str = "https://kyfw.12306.cn/otn/resources/js/framework/station_name.js";

/// The last day from today on for which tickets are surely on sale.
pub const PRESALE_LAST_OFFSET: i64 = 13;

/// The day that is asked for in place of one beyond the sale.
pub const FALLBACK_OFFSET: i64 = 10;

// ---- Days ----

/// Today in Beijing, as a day since the start of 1970.
pub fn today_epoch_days() -> (n: i64)
    ensures
        0 <= n <= 300_000_000_000_000,
{
    prompt::beijing_day_at(clock::now().secs)
}

/// The day that is asked for where none is named: a week from today.
pub fn default_date_at(today: i64) -> (r: String)
    requires
        today <= i64::MAX - 719475,
    ensures
        r@ == calendar::day_text(today + 7),
{
    calendar::days_to_date(today + 7)
}

pub fn default_date() -> (r: String)
    ensures
        exists|today: int| r@ == #[trigger] calendar::day_text(today + 7) && today >= 0,
{
    let today = today_epoch_days();
    let r = default_date_at(today);
    assert(r@ == calendar::day_text(today as int + 7));
    r
}

/// Whether a text is the date of a day after the sale's last.
pub open spec fn beyond_sale(date: Seq<char>, today: int) -> bool {
    calendar::read_day(date) matches Some(n) && n > today + PRESALE_LAST_OFFSET
}

/// The date that is asked for: the date itself, or one well within the sale where the date lies
/// beyond it.
pub open spec fn asked_date(date: Seq<char>, today: int) -> Seq<char> {
    if beyond_sale(date, today) {
        calendar::day_text(today + FALLBACK_OFFSET)
    } else {
        date
    }
}

/// The dates that are asked for, on a given day.
pub fn query_candidates_at(date: &str, today: i64) -> (r: Vec<String>)
    requires
        today <= i64::MAX - 719478 - 13,
    ensures
        text::views(r@) == seq![asked_date(date@, today as int)],
{
    let mut r: Vec<String> = Vec::new();
    let asked = match calendar::date_to_days(date) {
        Some(d) => if d <= today + PRESALE_LAST_OFFSET {
            text::copy_text(date)
        } else {
            calendar::days_to_date(today + FALLBACK_OFFSET)
        },
        None => text::copy_text(date),
    };
    r.push(asked);
    assert(text::views(r@) =~= seq![asked_date(date@, today as int)]);
    r
}

/// The dates that are asked for today.
pub fn query_candidates(date: &str) -> (r: Vec<String>)
    ensures
        exists|today: int|
            today >= 0 && text::views(r@) == seq![#[trigger] asked_date(date@, today)],
{
    let today = today_epoch_days();
    let r = query_candidates_at(date, today);
    assert(text::views(r@) == seq![asked_date(date@, today as int)]);
    r
}

/// What is asked for is always on sale: within the sale the date itself, beyond it a day within
/// the sale.
pub proof fn law_asked_day_is_on_sale(n: int, today: int)
    requires
        calendar::day_text(n).len() == 10,
    ensures
        beyond_sale(calendar::day_text(n), today) == (n > today + PRESALE_LAST_OFFSET),
        today < today + FALLBACK_OFFSET <= today + PRESALE_LAST_OFFSET,
{
    calendar::law_dates_are_read_back(n, calendar::day_text(n));
}

/// A date up to thirteen days from today is asked for as it is, a later one is replaced by the day ten
/// days from today, and a text that is no date is passed on.
pub proof fn law_late_days_are_replaced(date: Seq<char>, n: int, today: int)
    ensures
        date.len() == 10 && date == calendar::day_text(n) && n <= today + 13 ==> asked_date(
            date,
            today,
        ) == date,
        date.len() == 10 && date == calendar::day_text(n) && n > today + 13 ==> asked_date(
            date,
            today,
        ) == calendar::day_text(today + 10),
        (forall|k: int| #[trigger] calendar::day_text(k) != date) ==> asked_date(date, today) == date,
{
    if date.len() == 10 && date == calendar::day_text(n) {
        calendar::law_dates_are_read_back(n, date);
    }
}

// ---- Stations ----

pub open spec fn station_views(t: Seq<(String, String)>) -> Seq<(Seq<char>, Seq<char>)> {
    t.map_values(|s: (String, String)| (s.0@, s.1@))
}

/// The name and code in one item of the station list: its second and third field.
pub open spec fn station_item(item: Seq<char>) -> Option<(Seq<char>, Seq<char>)> {
    let f = text::split_at_char(item, '|');
    if f.len() >= 3 && f[1].len() > 0 && f[2].len() > 0 {
        Some((f[1], f[2]))
    } else {
        None
    }
}

pub open spec fn stations_of(items: Seq<Seq<char>>) -> Seq<(Seq<char>, Seq<char>)>
    decreases items.len(),
{
    if items.len() == 0 {
        Seq::empty()
    } else {
        let before = stations_of(items.drop_last());
        match station_item(items.last()) {
            Some(s) => before.push(s),
            None => before,
        }
    }
}

/// An item of the station list gives the name in its second field with the code in its third, where
/// both are there.
pub proof fn law_items_name_their_station(item: Seq<char>)
    ensures
        ({
            let f = text::split_at_char(item, '|');
            &&& station_item(item) is Some <==> f.len() > 2 && f[1].len() > 0 && f[2].len() > 0
            &&& station_item(item) matches Some(s) ==> s.0 == f[1] && s.1 == f[2]
        }),
{
}

/// The stations of a station list, whose items an at-sign separates.
pub open spec fn station_table(js: Seq<char>) -> Seq<(Seq<char>, Seq<char>)> {
    stations_of(text::split_at_char(js, '@'))
}

pub fn parse_station_table(js: &str) -> (r: Vec<(String, String)>)
    ensures
        station_views(r@) == station_table(js@),
{
    let items = text::split(js, '@');
    let ghost all = text::views(items@);
    let mut out: Vec<(String, String)> = Vec::new();
    let mut i: usize = 0;
    assert(station_views(out@) =~= stations_of(all.take(0)));
    while i < items.len()
        invariant
            i <= items@.len(),
            all == text::views(items@),
            station_views(out@) == stations_of(all.take(i as int)),
        decreases items@.len() - i,
    {
        proof {
            assert(all.take(i + 1).drop_last() == all.take(i as int));
            assert(all.take(i + 1).last() == items@[i as int]@);
        }
        let f = text::split(items[i].as_str(), '|');
        if f.len() >= 3 {
            assert(text::views(f@)[1] == f@[1]@ && text::views(f@)[2] == f@[2]@);
            if text::char_count(f[1].as_str()) > 0 && text::char_count(f[2].as_str()) > 0 {
                let s = (text::copy_text(f[1].as_str()), text::copy_text(f[2].as_str()));
                let ghost before = station_views(out@);
                out.push(s);
                assert(station_views(out@) =~= before.push((s.0@, s.1@)));
            }
        }
        i = i + 1;
    }
    assert(all.take(all.len() as int) == all);
    out
}

/// How long a stored station list is used, in seconds.
pub const STATIONS_KEPT_SECS: u64 = 604800;

/// Whether a stored station list is still used; `age` is how old it is in seconds, where that is
/// known.
pub fn stations_are_fresh(age: Option<u64>) -> (b: bool)
    ensures
        b == (age matches Some(secs) && secs < STATIONS_KEPT_SECS),
{
    match age {
        Some(secs) => secs < STATIONS_KEPT_SECS,
        None => false,
    }
}

/// Whether a station's name holds the given one, or the given one holds the station's.
pub open spec fn similar(station: Seq<char>, name: Seq<char>) -> bool {
    text::contains(station, name) || text::contains(name, station)
}

/// The code of the first station with exactly this name.
pub open spec fn exact_code(t: Seq<(Seq<char>, Seq<char>)>, name: Seq<char>) -> Option<Seq<char>>
    decreases t.len(),
{
    if t.len() == 0 {
        None
    } else if t[0].0 == name {
        Some(t[0].1)
    } else {
        exact_code(t.skip(1), name)
    }
}

/// The code of the first station with a similar name.
pub open spec fn similar_code(t: Seq<(Seq<char>, Seq<char>)>, name: Seq<char>) -> Option<Seq<char>>
    decreases t.len(),
{
    if t.len() == 0 {
        None
    } else if similar(t[0].0, name) {
        Some(t[0].1)
    } else {
        similar_code(t.skip(1), name)
    }
}

/// The code of a station: by its exact name, else by a similar one.
pub open spec fn station_code(t: Seq<(Seq<char>, Seq<char>)>, name: Seq<char>) -> Option<Seq<char>> {
    match exact_code(t, name) {
        Some(c) => Some(c),
        None => similar_code(t, name),
    }
}

pub fn resolve_station(table: &Vec<(String, String)>, name: &str) -> (r: Option<String>)
    ensures
        match r {
            Some(c) => station_code(station_views(table@), name@) == Some(c@),
            None => station_code(station_views(table@), name@) is None,
        },
{
    let ghost all = station_views(table@);
    let mut i: usize = 0;
    assert(all.skip(0) =~= all);
    while i < table.len()
        invariant
            i <= table@.len(),
            all == station_views(table@),
            exact_code(all, name@) == exact_code(all.skip(i as int), name@),
        decreases table@.len() - i,
    {
        proof {
            assert(all.skip(i as int)[0] == all[i as int]);
            assert(all.skip(i as int).skip(1) =~= all.skip(i + 1));
        }
        if text::same(table[i].0.as_str(), name) {
            return Some(text::copy_text(table[i].1.as_str()));
        }
        i = i + 1;
    }
    let mut j: usize = 0;
    while j < table.len()
        invariant
            j <= table@.len(),
            all == station_views(table@),
            exact_code(all, name@) is None,
            similar_code(all, name@) == similar_code(all.skip(j as int), name@),
        decreases table@.len() - j,
    {
        proof {
            assert(all.skip(j as int)[0] == all[j as int]);
            assert(all.skip(j as int).skip(1) =~= all.skip(j + 1));
        }
        if text::has_text(table[j].0.as_str(), name) || text::has_text(name, table[j].0.as_str()) {
            return Some(text::copy_text(table[j].1.as_str()));
        }
        j = j + 1;
    }
    None
}

/// The name of the last station with a code; a code without a station stands for itself.
pub open spec fn name_of_code(t: Seq<(Seq<char>, Seq<char>)>, code: Seq<char>) -> Seq<char>
    decreases t.len(),
{
    if t.len() == 0 {
        code
    } else if t.last().1 == code {
        t.last().0
    } else {
        name_of_code(t.drop_last(), code)
    }
}

fn station_name(table: &Vec<(String, String)>, code: &str) -> (r: String)
    ensures
        r@ == name_of_code(station_views(table@), code@),
{
    let ghost all = station_views(table@);
    let mut i: usize = table.len();
    assert(all.take(all.len() as int) =~= all);
    while i > 0
        invariant
            i <= table@.len(),
            all == station_views(table@),
            name_of_code(all, code@) == name_of_code(all.take(i as int), code@),
        decreases i,
    {
        proof {
            assert(all.take(i as int).last() == all[i - 1]);
            assert(all.take(i as int).drop_last() =~= all.take(i - 1));
        }
        if text::same(table[i - 1].1.as_str(), code) {
            return text::copy_text(table[i - 1].0.as_str());
        }
        i = i - 1;
    }
    text::copy_text(code)
}

/// A station is found by its exact name, the first of that name; where none has it, by a name that
/// holds it or that it holds, the first of those; and not at all where there is none of these.
pub proof fn law_stations_are_found(t: Seq<(Seq<char>, Seq<char>)>, name: Seq<char>)
    ensures
        match station_code(t, name) {
            Some(code) => exists|i: int| #[trigger] is_best_station(t, name, i) && t[i].1 == code,
            None => forall|i: int|
                0 <= i < t.len() ==> (#[trigger] t[i]).0 != name && !text::contains(t[i].0, name)
                    && !text::contains(name, t[i].0),
        },
{
    lemma_exact_code(t, name);
    lemma_similar_code(t, name);
    match exact_code(t, name) {
        Some(_) => {
            let i = choose|i: int|
                0 <= i < t.len() && t[i].0 == name && Some(t[i].1) == exact_code(t, name)
                    && forall|j: int| 0 <= j < i ==> (#[trigger] t[j]).0 != name;
            assert(is_best_station(t, name, i));
        },
        None => match similar_code(t, name) {
            Some(_) => {
                let i = choose|i: int|
                    0 <= i < t.len() && similar(t[i].0, name) && Some(t[i].1) == similar_code(
                        t,
                        name,
                    ) && forall|j: int| 0 <= j < i ==> !similar((#[trigger] t[j]).0, name);
                assert(is_best_station(t, name, i));
            },
            None => {
                assert forall|i: int| 0 <= i < t.len() implies (#[trigger] t[i]).0 != name
                    && !text::contains(t[i].0, name) && !text::contains(name, t[i].0) by {
                    assert(!similar(t[i].0, name));
                }
            },
        },
    }
}

/// Whether the station at a place is the best for a name.
pub open spec fn is_best_station(t: Seq<(Seq<char>, Seq<char>)>, name: Seq<char>, i: int) -> bool {
    &&& 0 <= i < t.len()
    &&& forall|j: int| 0 <= j < i ==> (#[trigger] t[j]).0 != name
    &&& t[i].0 == name || {
        &&& forall|j: int| 0 <= j < t.len() ==> (#[trigger] t[j]).0 != name
        &&& text::contains(t[i].0, name) || text::contains(name, t[i].0)
        &&& forall|j: int|
            0 <= j < i ==> !text::contains((#[trigger] t[j]).0, name) && !text::contains(
                name,
                t[j].0,
            )
    }
}

proof fn lemma_exact_code(t: Seq<(Seq<char>, Seq<char>)>, name: Seq<char>)
    ensures
        match exact_code(t, name) {
            Some(code) => exists|i: int|
                0 <= i < t.len() && t[i].0 == name && Some(#[trigger] t[i].1) == exact_code(t, name)
                    && forall|j: int| 0 <= j < i ==> (#[trigger] t[j]).0 != name,
            None => forall|i: int| 0 <= i < t.len() ==> (#[trigger] t[i]).0 != name,
        },
    decreases t.len(),
{
    if t.len() > 0 {
        if t[0].0 == name {
            assert(Some(t[0].1) == exact_code(t, name));
        } else {
            let rest = t.skip(1);
            lemma_exact_code(rest, name);
            match exact_code(rest, name) {
                Some(_) => {
                    let k = choose|k: int|
                        0 <= k < rest.len() && rest[k].0 == name && Some(#[trigger] rest[k].1)
                            == exact_code(rest, name) && forall|j: int|
                            0 <= j < k ==> (#[trigger] rest[j]).0 != name;
                    assert(t[k + 1] == rest[k]);
                    assert forall|j: int| 0 <= j < k + 1 implies (#[trigger] t[j]).0 != name by {
                        if j > 0 {
                            assert(rest[j - 1] == t[j]);
                        }
                    }
                    assert(Some(t[k + 1].1) == exact_code(t, name));
                },
                None => {
                    assert forall|i: int| 0 <= i < t.len() implies (#[trigger] t[i]).0 != name by {
                        if i > 0 {
                            assert(rest[i - 1] == t[i]);
                        }
                    }
                },
            }
        }
    }
}

proof fn lemma_similar_code(t: Seq<(Seq<char>, Seq<char>)>, name: Seq<char>)
    ensures
        match similar_code(t, name) {
            Some(code) => exists|i: int|
                0 <= i < t.len() && similar(t[i].0, name) && Some(#[trigger] t[i].1)
                    == similar_code(t, name) && forall|j: int|
                    0 <= j < i ==> !similar((#[trigger] t[j]).0, name),
            None => forall|i: int| 0 <= i < t.len() ==> !similar((#[trigger] t[i]).0, name),
        },
    decreases t.len(),
{
    if t.len() > 0 {
        if similar(t[0].0, name) {
            assert(Some(t[0].1) == similar_code(t, name));
        } else {
            let rest = t.skip(1);
            lemma_similar_code(rest, name);
            match similar_code(rest, name) {
                Some(_) => {
                    let k = choose|k: int|
                        0 <= k < rest.len() && similar(rest[k].0, name) && Some(
                            #[trigger] rest[k].1,
                        ) == similar_code(rest, name) && forall|j: int|
                            0 <= j < k ==> !similar((#[trigger] rest[j]).0, name);
                    assert(t[k + 1] == rest[k]);
                    assert forall|j: int| 0 <= j < k + 1 implies !similar(
                        (#[trigger] t[j]).0,
                        name,
                    ) by {
                        if j > 0 {
                            assert(rest[j - 1] == t[j]);
                        }
                    }
                    assert(Some(t[k + 1].1) == similar_code(t, name));
                },
                None => {
                    assert forall|i: int| 0 <= i < t.len() implies !similar(
                        (#[trigger] t[i]).0,
                        name,
                    ) by {
                        if i > 0 {
                            assert(rest[i - 1] == t[i]);
                        }
                    }
                },
            }
        }
    }
}

/// A code is shown as the name of a station that has it, and as itself where none has.
pub proof fn law_codes_have_names(t: Seq<(Seq<char>, Seq<char>)>, code: Seq<char>)
    ensures
        (exists|i: int| 0 <= i < t.len() && (#[trigger] t[i]).1 == code) ==> exists|i: int|
            0 <= i < t.len() && (#[trigger] t[i]).1 == code && t[i].0 == name_of_code(t, code),
        (forall|i: int| 0 <= i < t.len() ==> (#[trigger] t[i]).1 != code) ==> name_of_code(t, code)
            == code,
    decreases t.len(),
{
    if t.len() > 0 {
        let front = t.drop_last();
        law_codes_have_names(front, code);
        if t.last().1 == code {
            assert(t[t.len() - 1].0 == name_of_code(t, code));
        } else {
            if exists|i: int| 0 <= i < t.len() && (#[trigger] t[i]).1 == code {
                let i = choose|i: int| 0 <= i < t.len() && (#[trigger] t[i]).1 == code;
                assert(front[i].1 == code);
                let k = choose|k: int|
                    0 <= k < front.len() && (#[trigger] front[k]).1 == code && front[k].0
                        == name_of_code(front, code);
                assert(t[k].0 == name_of_code(t, code));
            } else {
                assert forall|i: int| 0 <= i < front.len() implies (#[trigger] front[i]).1
                    != code by {
                    assert(t[i].1 != code);
                }
            }
        }
    }
}

// ---- Rows ----

/// The fields that hold free seats, and the names of the seats.
pub open spec fn seat_fields() -> Seq<(int, Seq<char>)> {
    seq![
        (32, "商务座"@),
        (31, "一等座"@),
        (30, "二等座"@),
        (21, "高级软卧"@),
        (23, "软卧"@),
        (28, "硬卧"@),
        (29, "硬座"@),
        (26, "无座"@),
    ]
}

/// What a field says of a kind of seat, where it says that there are any.
pub open spec fn seat_text(fields: Seq<Seq<char>>, seat: (int, Seq<char>)) -> Option<Seq<char>> {
    if seat.0 >= fields.len() {
        None
    } else {
        let v = text::trimmed(fields[seat.0]);
        if v.len() == 0 || v == "*"@ || v == "无"@ {
            None
        } else {
            Some(seat.1 + ":"@ + v)
        }
    }
}

/// What the first `n` kinds of seats come to.
pub open spec fn seat_texts_of(fields: Seq<Seq<char>>, n: int) -> Seq<Seq<char>>
    decreases n,
{
    if n <= 0 {
        Seq::empty()
    } else {
        let before = seat_texts_of(fields, n - 1);
        match seat_text(fields, seat_fields()[n - 1]) {
            Some(s) => before.push(s),
            None => before,
        }
    }
}

/// The seats that are free, by the fields of a row.
pub fn seat_texts(fields: &Vec<String>) -> (r: Vec<String>)
    ensures
        text::views(r@) == seat_texts_of(text::views(fields@), 8),
{
    let seats: Vec<(usize, &'static str)> = vec![
        (32, "商务座"),
        (31, "一等座"),
        (30, "二等座"),
        (21, "高级软卧"),
        (23, "软卧"),
        (28, "硬卧"),
        (29, "硬座"),
        (26, "无座"),
    ];
    let ghost all = text::views(fields@);
    let mut out: Vec<String> = Vec::new();
    let mut i: usize = 0;
    assert(text::views(out@) =~= seat_texts_of(all, 0));
    assert(forall|k: int|
        0 <= k < 8 ==> (#[trigger] seats@[k]).0 == seat_fields()[k].0 && seats@[k].1@
            == seat_fields()[k].1);
    while i < seats.len()
        invariant
            i <= seats@.len() == 8,
            all == text::views(fields@),
            forall|k: int|
                0 <= k < 8 ==> (#[trigger] seats@[k]).0 == seat_fields()[k].0 && seats@[k].1@
                    == seat_fields()[k].1,
            text::views(out@) == seat_texts_of(all, i as int),
        decreases seats@.len() - i,
    {
        let (at, name) = seats[i];
        if at < fields.len() {
            assert(all[at as int] == fields@[at as int]@);
            let v = text::trim(fields[at].as_str());
            if !(text::char_count(v.as_str()) == 0 || text::same(v.as_str(), "*") || text::same(
                v.as_str(),
                "无",
            )) {
                let mut s = text::copy_text(name);
                s.append(":");
                s.append(v.as_str());
                proof {
                    text::lemma_views_push(out@, s);
                }
                out.push(s);
            }
        }
        i = i + 1;
    }
    out
}

/// Whether a field says that there are seats.
pub open spec fn says_free(field: Seq<char>) -> bool {
    let v = text::trimmed(field);
    v.len() > 0 && v != "*"@ && v != "无"@
}

/// What is told of a kind of seat by its field.
pub open spec fn told_seat(name: Seq<char>, field: Seq<char>) -> Seq<Seq<char>> {
    if says_free(field) {
        seq![name + ":"@ + text::trimmed(field)]
    } else {
        Seq::empty()
    }
}

/// Whether texts tell a kind of seat by its field: it is named exactly where the field says that there
/// are seats, with what the field says.
pub open spec fn tells_seat(texts: Seq<Seq<char>>, name: Seq<char>, field: Seq<char>) -> bool {
    &&& says_free(field) ==> texts.contains(name + ":"@ + text::trimmed(field))
    &&& forall|i: int|
        0 <= i < texts.len() && (name + ":"@).is_prefix_of(#[trigger] texts[i]) ==> says_free(field)
            && texts[i] == name + ":"@ + text::trimmed(field)
}

/// Whether a text is what is told of the seat at a place of the list.
spec fn is_of_seat(f: Seq<Seq<char>>, s: Seq<char>, k: int) -> bool {
    &&& 0 <= k < 8
    &&& says_free(f[seat_fields()[k].0])
    &&& s == seat_fields()[k].1 + ":"@ + text::trimmed(f[seat_fields()[k].0])
}

spec fn is_of_some_seat(f: Seq<Seq<char>>, s: Seq<char>) -> bool {
    exists|k: int| #[trigger] is_of_seat(f, s, k)
}

proof fn lemma_seats_told(f: Seq<Seq<char>>, n: int)
    requires
        f.len() > 32,
        0 <= n <= 8,
    ensures
        forall|i: int|
            0 <= i < seat_texts_of(f, n).len() ==> is_of_some_seat(
                f,
                #[trigger] seat_texts_of(f, n)[i],
            ),
        forall|k: int|
            0 <= k < n && says_free(f[(#[trigger] seat_fields()[k]).0]) ==> seat_texts_of(
                f,
                n,
            ).contains(seat_fields()[k].1 + ":"@ + text::trimmed(f[seat_fields()[k].0])),
    decreases n,
{
    if n > 0 {
        lemma_seats_told(f, n - 1);
        let before = seat_texts_of(f, n - 1);
        let now = seat_texts_of(f, n);
        assert forall|i: int| 0 <= i < now.len() implies is_of_some_seat(f, #[trigger] now[i]) by {
            if i < before.len() {
                assert(now[i] == before[i]);
            } else {
                assert(is_of_seat(f, now[i], n - 1));
            }
        }
        assert forall|k: int| 0 <= k < n && says_free(
            f[(#[trigger] seat_fields()[k]).0],
        ) implies now.contains(seat_fields()[k].1 + ":"@ + text::trimmed(f[seat_fields()[k].0])) by {
            let s = seat_fields()[k].1 + ":"@ + text::trimmed(f[seat_fields()[k].0]);
            if k < n - 1 {
                assert(before.contains(s));
                let i = choose|i: int| 0 <= i < before.len() && before[i] == s;
                assert(now[i] == s);
            } else {
                assert(now[before.len() as int] == s);
            }
        }
    }
}

proof fn lemma_seat_names_differ(j: int, k: int)
    requires
        0 <= j < 8,
        0 <= k < 8,
        j != k,
    ensures
        seat_fields()[j].1.len() >= 2,
        seat_fields()[k].1.len() >= 2,
        seat_fields()[j].1[0] != seat_fields()[k].1[0] || seat_fields()[j].1[1]
            != seat_fields()[k].1[1],
{
    reveal_strlit("商务座");
    reveal_strlit("一等座");
    reveal_strlit("二等座");
    reveal_strlit("高级软卧");
    reveal_strlit("软卧");
    reveal_strlit("硬卧");
    reveal_strlit("硬座");
    reveal_strlit("无座");
    assert(seat_fields()[0].1[0] == '商' && seat_fields()[0].1[1] == '务' && seat_fields()[0].1.len() >= 2);
    assert(seat_fields()[1].1[0] == '一' && seat_fields()[1].1[1] == '等' && seat_fields()[1].1.len() >= 2);
    assert(seat_fields()[2].1[0] == '二' && seat_fields()[2].1[1] == '等' && seat_fields()[2].1.len() >= 2);
    assert(seat_fields()[3].1[0] == '高' && seat_fields()[3].1[1] == '级' && seat_fields()[3].1.len() >= 2);
    assert(seat_fields()[4].1[0] == '软' && seat_fields()[4].1[1] == '卧' && seat_fields()[4].1.len() >= 2);
    assert(seat_fields()[5].1[0] == '硬' && seat_fields()[5].1[1] == '卧' && seat_fields()[5].1.len() >= 2);
    assert(seat_fields()[6].1[0] == '硬' && seat_fields()[6].1[1] == '座' && seat_fields()[6].1.len() >= 2);
    assert(seat_fields()[7].1[0] == '无' && seat_fields()[7].1[1] == '座' && seat_fields()[7].1.len() >= 2);
}

proof fn lemma_tells_seat(f: Seq<Seq<char>>, k: int)
    requires
        f.len() > 32,
        0 <= k < 8,
    ensures
        tells_seat(seat_texts_of(f, 8), seat_fields()[k].1, f[seat_fields()[k].0]),
{
    let r = seat_texts_of(f, 8);
    let name = seat_fields()[k].1;
    let field = f[seat_fields()[k].0];
    lemma_seats_told(f, 8);
    assert forall|i: int| 0 <= i < r.len() && (name + ":"@).is_prefix_of(
        #[trigger] r[i],
    ) implies says_free(field) && r[i] == name + ":"@ + text::trimmed(field) by {
        assert(is_of_some_seat(f, r[i]));
        let j = choose|j: int| #[trigger] is_of_seat(f, r[i], j);
        if j != k {
            lemma_seat_names_differ(j, k);
            let start = name + ":"@;
            assert(start[0] == name[0] && start[1] == name[1]);
            assert(r[i].subrange(0, start.len() as int)[0] == start[0]);
            assert(r[i].subrange(0, start.len() as int)[1] == start[1]);
            assert(r[i][0] == seat_fields()[j].1[0]);
            assert(r[i][1] == seat_fields()[j].1[1]);
        }
    }
}

/// Each kind of seat is told by its own field of a row, where that says that there are seats, and not
/// otherwise.
#[verifier::spinoff_prover]
pub proof fn law_seats_have_their_fields(f: Seq<Seq<char>>)
    requires
        f.len() > 32,
    ensures
        tells_seat(seat_texts_of(f, 8), "商务座"@, f[32]),
        tells_seat(seat_texts_of(f, 8), "一等座"@, f[31]),
        tells_seat(seat_texts_of(f, 8), "二等座"@, f[30]),
        tells_seat(seat_texts_of(f, 8), "高级软卧"@, f[21]),
        tells_seat(seat_texts_of(f, 8), "软卧"@, f[23]),
        tells_seat(seat_texts_of(f, 8), "硬卧"@, f[28]),
        tells_seat(seat_texts_of(f, 8), "硬座"@, f[29]),
        tells_seat(seat_texts_of(f, 8), "无座"@, f[26]),
{
    assert(seat_fields()[0] == (32int, "商务座"@));
    lemma_tells_seat(f, 0);
    assert(seat_fields()[1] == (31int, "一等座"@));
    lemma_tells_seat(f, 1);
    assert(seat_fields()[2] == (30int, "二等座"@));
    lemma_tells_seat(f, 2);
    assert(seat_fields()[3] == (21int, "高级软卧"@));
    lemma_tells_seat(f, 3);
    assert(seat_fields()[4] == (23int, "软卧"@));
    lemma_tells_seat(f, 4);
    assert(seat_fields()[5] == (28int, "硬卧"@));
    lemma_tells_seat(f, 5);
    assert(seat_fields()[6] == (29int, "硬座"@));
    lemma_tells_seat(f, 6);
    assert(seat_fields()[7] == (26int, "无座"@));
    lemma_tells_seat(f, 7);
}

/// The kinds of seats come from the dearest to the cheapest.
#[verifier::spinoff_prover]
pub proof fn law_seats_come_in_order(f: Seq<Seq<char>>)
    requires
        f.len() > 32,
    ensures
        seat_texts_of(f, 8) == told_seat(
            "商务座"@,
            f[32],
        ) + told_seat(
            "一等座"@,
            f[31],
        ) + told_seat(
            "二等座"@,
            f[30],
        ) + told_seat(
            "高级软卧"@,
            f[21],
        ) + told_seat(
            "软卧"@,
            f[23],
        ) + told_seat(
            "硬卧"@,
            f[28],
        ) + told_seat(
            "硬座"@,
            f[29],
        ) + told_seat(
            "无座"@,
            f[26],
        ),
{
    lemma_seat_step(f, 1);
    lemma_seat_step(f, 2);
    lemma_seat_step(f, 3);
    lemma_seat_step(f, 4);
    lemma_seat_step(f, 5);
    lemma_seat_step(f, 6);
    lemma_seat_step(f, 7);
    lemma_seat_step(f, 8);
    let first = told_seat("商务座"@, f[32]);
    assert(Seq::<Seq<char>>::empty() + first =~= first);
}

proof fn lemma_seat_step(f: Seq<Seq<char>>, n: int)
    requires
        f.len() > 32,
        1 <= n <= 8,
    ensures
        seat_texts_of(f, n) == seat_texts_of(f, n - 1) + told_seat(
            seat_fields()[n - 1].1,
            f[seat_fields()[n - 1].0],
        ),
        seat_texts_of(f, 0) == Seq::<Seq<char>>::empty(),
{
    let before = seat_texts_of(f, n - 1);
    let told = told_seat(seat_fields()[n - 1].1, f[seat_fields()[n - 1].0]);
    assert(seat_texts_of(f, n) =~= before + told);
}

/// Whether a ticket can be bought, by the fields of a row.
pub open spec fn sale_text(f: Seq<Seq<char>>) -> Seq<char> {
    if f[11] == "Y"@ {
        "可购"@
    } else if f[11] == "N"@ {
        "不可购"@
    } else {
        f[1]
    }
}

/// One connection in words.
pub open spec fn row_line(
    t: Seq<(Seq<char>, Seq<char>)>,
    f: Seq<Seq<char>>,
) -> Seq<char> {
    let seats = seat_texts_of(f, 8);
    f[3] + " "@ + name_of_code(t, f[4]) + " "@ + f[8] + " → "@ + name_of_code(t, f[5]) + " "@ + f[9]
        + "（历时 "@ + f[10] + "）| "@ + sale_text(f) + " | "@ + (if seats.len() == 0 {
        "余票信息暂无"@
    } else {
        text::joined(seats, " "@)
    })
}

/// The connections of an answer in words; rows with too few fields are left out.
pub open spec fn row_lines(
    t: Seq<(Seq<char>, Seq<char>)>,
    rows: Seq<Seq<char>>,
) -> Seq<Seq<char>>
    decreases rows.len(),
{
    if rows.len() == 0 {
        Seq::empty()
    } else {
        let before = row_lines(t, rows.drop_last());
        let f = text::split_at_char(rows.last(), '|');
        if f.len() < 33 {
            before
        } else {
            before.push(row_line(t, f))
        }
    }
}

/// The line of a connection begins with the train, then come where and when it leaves, where and when
/// it arrives and how long it takes, whether tickets can be bought, and at last the seats.
pub proof fn law_lines_tell_their_train(t: Seq<(Seq<char>, Seq<char>)>, f: Seq<Seq<char>>)
    requires
        f.len() > 32,
    ensures
        ({
            let seats = seat_texts_of(f, 8);
            let way = f[3] + " "@ + name_of_code(t, f[4]) + " "@ + f[8] + " → "@ + name_of_code(
                t,
                f[5],
            ) + " "@ + f[9] + "（历时 "@ + f[10] + "）| "@;
            &&& way.is_prefix_of(row_line(t, f))
            &&& f[11] == "Y"@ ==> row_line(t, f) == way + "可购 | "@ + (if seats.len() == 0 {
                "余票信息暂无"@
            } else {
                text::joined(seats, " "@)
            })
            &&& f[11] == "N"@ ==> row_line(t, f) == way + "不可购 | "@ + (if seats.len() == 0 {
                "余票信息暂无"@
            } else {
                text::joined(seats, " "@)
            })
            &&& f[11] != "Y"@ && f[11] != "N"@ ==> row_line(t, f) == way + f[1] + " | "@ + (
            if seats.len() == 0 {
                "余票信息暂无"@
            } else {
                text::joined(seats, " "@)
            })
        }),
{
    let seats = seat_texts_of(f, 8);
    let last = if seats.len() == 0 {
        "余票信息暂无"@
    } else {
        text::joined(seats, " "@)
    };
    let way = f[3] + " "@ + name_of_code(t, f[4]) + " "@ + f[8] + " → "@ + name_of_code(t, f[5])
        + " "@ + f[9] + "（历时 "@ + f[10] + "）| "@;
    assert(row_line(t, f) == way + sale_text(f) + " | "@ + last);
    assert(way =~= row_line(t, f).subrange(0, way.len() as int));
    reveal_strlit("Y");
    reveal_strlit("N");
    reveal_strlit(" | ");
    reveal_strlit("可购");
    reveal_strlit("不可购");
    reveal_strlit("可购 | ");
    reveal_strlit("不可购 | ");
    assert("Y"@[0] == 'Y' && "N"@[0] == 'N');
    assert("可购"@ + " | "@ =~= "可购 | "@);
    assert("不可购"@ + " | "@ =~= "不可购 | "@);
    assert(way + "可购"@ + " | "@ + last =~= way + "可购 | "@ + last);
    assert(way + "不可购"@ + " | "@ + last =~= way + "不可购 | "@ + last);
}

/// Of the rows of an answer exactly those with enough fields become lines, in their order.
pub proof fn law_rows_become_lines(t: Seq<(Seq<char>, Seq<char>)>, rows: Seq<Seq<char>>)
    ensures
        row_lines(t, Seq::empty()).len() == 0,
        rows.len() > 0 ==> row_lines(t, rows) == (if text::split_at_char(rows.last(), '|').len()
            > 32 {
            row_lines(t, rows.drop_last()).push(
                row_line(t, text::split_at_char(rows.last(), '|')),
            )
        } else {
            row_lines(t, rows.drop_last())
        }),
{
}

fn line_of(table: &Vec<(String, String)>, f: &Vec<String>) -> (r: String)
    requires
        f@.len() >= 33,
    ensures
        r@ == row_line(station_views(table@), text::views(f@)),
{
    let ghost v = text::views(f@);
    assert(v[1] == f@[1]@ && v[3] == f@[3]@ && v[4] == f@[4]@ && v[5] == f@[5]@ && v[8] == f@[8]@);
    assert(v[9] == f@[9]@ && v[10] == f@[10]@ && v[11] == f@[11]@);
    let mut s = text::copy_text(f[3].as_str());
    s.append(" ");
    s.append(station_name(table, f[4].as_str()).as_str());
    s.append(" ");
    s.append(f[8].as_str());
    s.append(" → ");
    s.append(station_name(table, f[5].as_str()).as_str());
    s.append(" ");
    s.append(f[9].as_str());
    s.append("（历时 ");
    s.append(f[10].as_str());
    s.append("）| ");
    if text::same(f[11].as_str(), "Y") {
        s.append("可购");
    } else if text::same(f[11].as_str(), "N") {
        s.append("不可购");
    } else {
        s.append(f[1].as_str());
    }
    s.append(" | ");
    let seats = seat_texts(f);
    if seats.len() == 0 {
        s.append("余票信息暂无");
    } else {
        s.append(text::join(&seats, " ").as_str());
    }
    s
}

fn lines_of_rows(table: &Vec<(String, String)>, rows: &Vec<String>) -> (r: Vec<String>)
    ensures
        text::views(r@) == row_lines(station_views(table@), text::views(rows@)),
{
    let ghost t = station_views(table@);
    let ghost all = text::views(rows@);
    let mut out: Vec<String> = Vec::new();
    let mut i: usize = 0;
    assert(text::views(out@) =~= row_lines(t, all.take(0)));
    while i < rows.len()
        invariant
            i <= rows@.len(),
            all == text::views(rows@),
            t == station_views(table@),
            text::views(out@) == row_lines(t, all.take(i as int)),
        decreases rows@.len() - i,
    {
        proof {
            assert(all.take(i + 1).drop_last() == all.take(i as int));
            assert(all.take(i + 1).last() == rows@[i as int]@);
        }
        let f = text::split(rows[i].as_str(), '|');
        if f.len() >= 33 {
            let line = line_of(table, &f);
            proof {
                text::lemma_views_push(out@, line);
            }
            out.push(line);
        }
        i = i + 1;
    }
    assert(all.take(all.len() as int) == all);
    out
}

// ---- A search ----

/// A search that is to be made.
pub struct TrainQuery {
    pub from: String,
    pub to: String,
    pub date: String,
}

pub struct TrainQueryModel {
    pub from: Seq<char>,
    pub to: Seq<char>,
    pub date: Seq<char>,
}

impl View for TrainQuery {
    type V = TrainQueryModel;

    open spec fn view(&self) -> TrainQueryModel {
        TrainQueryModel { from: self.from@, to: self.to@, date: self.date@ }
    }
}

/// What the arguments of a search come to.
pub enum TrainPlan {
    /// The search is to be made.
    Ask(TrainQuery),
    /// The answer is ready without a search.
    Reply(String),
    /// An argument is missing.
    Fail(String),
}

pub enum TrainPlanModel {
    Ask(TrainQueryModel),
    Reply(Seq<char>),
    Fail(Seq<char>),
}

impl View for TrainPlan {
    type V = TrainPlanModel;

    open spec fn view(&self) -> TrainPlanModel {
        match *self {
            TrainPlan::Ask(q) => TrainPlanModel::Ask(q@),
            TrainPlan::Reply(s) => TrainPlanModel::Reply(s@),
            TrainPlan::Fail(s) => TrainPlanModel::Fail(s@),
        }
    }
}

/// A station's name as the station list has it: without white space and without the word for
/// station at its end.
pub open spec fn bare_station(s: Seq<char>) -> Seq<char> {
    text::back_stripped(text::trimmed(s), CharClass::Only('站'))
}

/// What the arguments of a search come to on a given day.
pub open spec fn planned(args: JsonTree, today: int) -> TrainPlanModel {
    match args.text_at("from"@) {
        None => TrainPlanModel::Fail("缺少 from 参数"@),
        Some(from) => match args.text_at("to"@) {
            None => TrainPlanModel::Fail("缺少 to 参数"@),
            Some(to) => {
                let date = args.text_or("date"@, calendar::day_text(today + 7));
                match calendar::read_day(date) {
                    None => TrainPlanModel::Reply(
                        "日期格式应为 YYYY-MM-DD，收到「"@ + date + "」"@,
                    ),
                    Some(n) => if n < today {
                        TrainPlanModel::Reply(
                            "查询日期 "@ + date + " 已经过期；请根据当前日期 "@
                                + calendar::day_text(today) + " 提供今天或未来的出发日期。"@,
                        )
                    } else {
                        TrainPlanModel::Ask(
                            TrainQueryModel {
                                from: bare_station(from),
                                to: bare_station(to),
                                date,
                            },
                        )
                    },
                }
            },
        },
    }
}

fn bare_name(s: &str) -> (r: String)
    ensures
        r@ == bare_station(s@),
{
    let t = text::trim(s);
    text::strip_back(t.as_str(), CharClass::Only('站'))
}

/// What the arguments of a search come to on a given day: a date in the past, or one that is none,
/// is answered without a search.
pub fn plan_at(args: &serde_json::Value, today: i64) -> (r: TrainPlan)
    requires
        today <= i64::MAX - 719475,
    ensures
        r@ == planned(json::json_tree(*args), today as int),
{
    let from = match json::text_at(args, "from") {
        Some(s) => s,
        None => return TrainPlan::Fail(text::copy_text("缺少 from 参数")),
    };
    let to = match json::text_at(args, "to") {
        Some(s) => s,
        None => return TrainPlan::Fail(text::copy_text("缺少 to 参数")),
    };
    let default = default_date_at(today);
    let date = json::text_or(args, "date", default.as_str());
    match calendar::date_to_days(date.as_str()) {
        None => {
            let mut s = text::copy_text("日期格式应为 YYYY-MM-DD，收到「");
            s.append(date.as_str());
            s.append("」");
            TrainPlan::Reply(s)
        },
        Some(n) => {
            if n < today {
                let mut s = text::copy_text("查询日期 ");
                s.append(date.as_str());
                s.append(" 已经过期；请根据当前日期 ");
                s.append(calendar::days_to_date(today).as_str());
                s.append(" 提供今天或未来的出发日期。");
                TrainPlan::Reply(s)
            } else {
                TrainPlan::Ask(
                    TrainQuery {
                        from: bare_name(from.as_str()),
                        to: bare_name(to.as_str()),
                        date,
                    },
                )
            }
        },
    }
}

/// A search is made for today or a later day, never for a past one.
pub proof fn law_no_search_in_the_past(args: JsonTree, today: int)
    ensures
        planned(args, today) matches TrainPlanModel::Ask(q) ==> (calendar::read_day(
            q.date,
        ) matches Some(n) && n >= today),
{
}

/// A station is looked for without the word for station at the end of its name: what is left is the
/// front of the name, ends otherwise, and only that word has gone.
pub proof fn law_station_names_are_bare(s: Seq<char>)
    ensures
        ({
            let t = text::trimmed(s);
            let b = bare_station(s);
            &&& b.len() <= t.len()
            &&& b == t.take(b.len() as int)
            &&& forall|i: int| b.len() <= i < t.len() ==> #[trigger] t[i] == '站'
            &&& b.len() > 0 ==> b.last() != '站'
        }),
{
    text::lemma_back_gone(text::trimmed(s), CharClass::Only('站'));
}

/// A search needs both stations and is made from the one to the other, on the day that is named, or a
/// week from today where none is. It is made exactly where that is a date from today on; otherwise
/// the date is told back.
pub proof fn law_searches_are_as_asked(args: JsonTree, today: int)
    ensures
        args.text_at("from"@) is None ==> planned(args, today) == TrainPlanModel::Fail(
            "缺少 from 参数"@,
        ),
        args.text_at("from"@) is Some && args.text_at("to"@) is None ==> planned(args, today)
            == TrainPlanModel::Fail("缺少 to 参数"@),
        (args.text_at("from"@), args.text_at("to"@)) matches (Some(from), Some(to)) ==> {
            let date = match args.text_at("date"@) {
                Some(d) => d,
                None => calendar::day_text(today + 7),
            };
            match calendar::read_day(date) {
                Some(n) => if n >= today {
                    planned(args, today) matches TrainPlanModel::Ask(q) && q.from == bare_station(
                        from,
                    ) && q.to == bare_station(to) && q.date == date
                } else {
                    planned(args, today) == TrainPlanModel::Reply(
                        "查询日期 "@ + date + " 已经过期；请根据当前日期 "@ + calendar::day_text(today)
                            + " 提供今天或未来的出发日期。"@,
                    )
                },
                None => planned(args, today) == TrainPlanModel::Reply(
                    "日期格式应为 YYYY-MM-DD，收到「"@ + date + "」"@,
                ),
            }
        },
{
}

/// The code of a station, with or without the word for station at the end of its name.
pub open spec fn query_code(t: Seq<(Seq<char>, Seq<char>)>, name: Seq<char>) -> Option<Seq<char>> {
    match station_code(t, name) {
        Some(c) => Some(c),
        None => station_code(t, name + "站"@),
    }
}

fn code_for(table: &Vec<(String, String)>, name: &str) -> (r: Option<String>)
    ensures
        match r {
            Some(c) => query_code(station_views(table@), name@) == Some(c@),
            None => query_code(station_views(table@), name@) is None,
        },
{
    match resolve_station(table, name) {
        Some(c) => Some(c),
        None => {
            let mut longer = text::copy_text(name);
            longer.append("站");
            resolve_station(table, longer.as_str())
        },
    }
}

/// The codes of the two stations of a search.
pub fn station_codes(table: &Vec<(String, String)>, query: &TrainQuery) -> (r: Result<
    (String, String),
    String,
>)
    ensures
        match r {
            Ok(codes) => {
                &&& table@.len() > 0
                &&& query_code(station_views(table@), query@.from) == Some(codes.0@)
                &&& query_code(station_views(table@), query@.to) == Some(codes.1@)
            },
            Err(e) => if table@.len() == 0 {
                e@ == "站名表解析为空（12306 可能改版）"@
            } else if query_code(station_views(table@), query@.from) is None {
                e@ == "出发站名未识别"@
            } else {
                query_code(station_views(table@), query@.to) is None && e@ == "到达站名未识别"@
            },
        },
{
    if table.len() == 0 {
        return Err(text::copy_text("站名表解析为空（12306 可能改版）"));
    }
    match code_for(table, query.from.as_str()) {
        None => Err(text::copy_text("出发站名未识别")),
        Some(from) => match code_for(table, query.to.as_str()) {
            None => Err(text::copy_text("到达站名未识别")),
            Some(to) => Ok((from, to)),
        },
    }
}

/// The address of a search.
pub open spec fn search_address(date: Seq<char>, from: Seq<char>, to: Seq<char>) -> Seq<char> {
    QUERY_URL@ + "?leftTicketDTO.train_date="@ + date + "&leftTicketDTO.from_station="@ + from
        + "&leftTicketDTO.to_station="@ + to + "&purpose_codes=ADULT"@
}

/// The service is asked for the trains of a day from the first station to the second.
pub proof fn law_addresses_name_day_and_stations(date: Seq<char>, from: Seq<char>, to: Seq<char>)
    ensures
        search_address(date, from, to)
            == "https://kyfw.12306.cn/otn/leftTicket/queryG"@ + "?leftTicketDTO.train_date="@ + date
            + "&leftTicketDTO.from_station="@ + from + "&leftTicketDTO.to_station="@ + to
            + "&purpose_codes=ADULT"@,
{
}

pub fn query_url(date: &str, from: &str, to: &str) -> (r: String)
    ensures
        r@ == search_address(date@, from@, to@),
{
    let mut r = text::copy_text(QUERY_URL);
    r.append("?leftTicketDTO.train_date=");
    r.append(date);
    r.append("&leftTicketDTO.from_station=");
    r.append(from);
    r.append("&leftTicketDTO.to_station=");
    r.append(to);
    r.append("&purpose_codes=ADULT");
    r
}

/// What a browser sends back of the cookies it was given: each without its attributes.
pub open spec fn cookies_of(headers: Seq<Seq<char>>) -> Seq<char> {
    text::joined(headers.map_values(|h: Seq<char>| text::split_at_char(h, ';')[0]), "; "@)
}

pub fn cookie_header(set_cookies: &Vec<String>) -> (r: String)
    ensures
        r@ == cookies_of(text::views(set_cookies@)),
{
    let ghost all = text::views(set_cookies@).map_values(
        |h: Seq<char>| text::split_at_char(h, ';')[0],
    );
    let mut parts: Vec<String> = Vec::new();
    let mut i: usize = 0;
    while i < set_cookies.len()
        invariant
            i <= set_cookies@.len(),
            all == text::views(set_cookies@).map_values(
                |h: Seq<char>| text::split_at_char(h, ';')[0],
            ),
            text::views(parts@) =~= all.take(i as int),
        decreases set_cookies@.len() - i,
    {
        let pieces = text::split(set_cookies[i].as_str(), ';');
        assert(text::views(pieces@)[0] == pieces@[0]@);
        let first = text::copy_text(pieces[0].as_str());
        proof {
            text::lemma_views_push(parts@, first);
            assert(all.take(i + 1) =~= all.take(i as int).push(all[i as int]));
        }
        parts.push(first);
        i = i + 1;
    }
    assert(all.take(all.len() as int) =~= all);
    text::join(&parts, "; ")
}

/// Whether an answer is one: it comes from the service, not from its error page, and is JSON.
pub open spec fn is_answer(host: Option<Seq<char>>, path: Seq<char>, content_type: Seq<char>) -> bool {
    &&& host == Some("kyfw.12306.cn"@)
    &&& !text::contains(path, "/error"@)
    &&& text::contains(text::lowered(content_type), "json"@)
}

pub fn check_answer(host: &Option<String>, path: &str, content_type: &str) -> (r: Result<
    (),
    String,
>)
    ensures
        match r {
            Ok(_) => is_answer(crate::llm::opt_text(*host), path@, content_type@),
            Err(e) => !is_answer(crate::llm::opt_text(*host), path@, content_type@) && e@
                == "12306 拒绝了该查询（日期可能无效或已过期）"@,
        },
{
    let right_host = match host {
        Some(h) => text::same(h.as_str(), "kyfw.12306.cn"),
        None => false,
    };
    let kind = text::to_ascii_lowercase(content_type);
    if right_host && !text::has_text(path, "/error") && text::has_text(kind.as_str(), "json") {
        Ok(())
    } else {
        Err(text::copy_text("12306 拒绝了该查询（日期可能无效或已过期）"))
    }
}

/// The texts among the items of a list.
pub open spec fn texts_among(items: Seq<JsonTree>) -> Seq<Seq<char>>
    decreases items.len(),
{
    if items.len() == 0 {
        Seq::empty()
    } else {
        let before = texts_among(items.drop_last());
        match items.last().text() {
            Some(s) => before.push(s),
            None => before,
        }
    }
}

/// The rows of an answer: the texts in the list under `data` and `result`.
pub open spec fn answer_rows(v: JsonTree) -> Seq<Seq<char>> {
    match v.entry("data"@) {
        Some(data) => match data.list_at("result"@) {
            Some(items) => texts_among(items),
            None => Seq::empty(),
        },
        None => Seq::empty(),
    }
}

pub fn rows_of_value(v: &serde_json::Value) -> (r: Vec<String>)
    ensures
        text::views(r@) == answer_rows(json::json_tree(*v)),
{
    let mut out: Vec<String> = Vec::new();
    assert(text::views(out@) =~= Seq::<Seq<char>>::empty());
    let data = match json::get(v, "data") {
        Some(d) => d,
        None => return out,
    };
    let items = match json::list_at(data, "result") {
        Some(items) => items,
        None => return out,
    };
    let ghost all = json::json_trees(items@);
    let mut i: usize = 0;
    while i < items.len()
        invariant
            i <= items@.len(),
            all == json::json_trees(items@),
            text::views(out@) == texts_among(all.take(i as int)),
        decreases items@.len() - i,
    {
        proof {
            assert(all.take(i + 1).drop_last() == all.take(i as int));
            assert(all.take(i + 1).last() == json::json_tree(items@[i as int]));
        }
        match json::as_str(&items[i]) {
            Some(s) => {
                proof {
                    text::lemma_views_push(out@, s);
                }
                out.push(s);
            },
            None => {},
        }
        i = i + 1;
    }
    assert(all.take(all.len() as int) == all);
    out
}

/// The rows of an answer, from its text.
pub fn rows_in_answer(body: &str) -> (r: Result<Vec<String>, String>)
    ensures
        match r {
            Ok(rows) => json::json_parsed(body@) is Some && text::views(rows@) == answer_rows(
                json::json_parsed(body@)->Some_0,
            ),
            Err(e) => json::json_parsed(body@) is None && e@ == "解析 12306 响应失败: "@
                + json::json_error(body@),
        },
{
    match json::parse_value(body) {
        Ok(v) => Ok(rows_of_value(&v)),
        Err(cause) => {
            let mut e = text::copy_text("解析 12306 响应失败: ");
            e.append(cause.as_str());
            Err(e)
        },
    }
}

/// The lines of a list, indented and each on its own line.
pub open spec fn indented(lines: Seq<Seq<char>>) -> Seq<char>
    decreases lines.len(),
{
    if lines.len() == 0 {
        Seq::empty()
    } else {
        indented(lines.drop_last()) + "  "@ + lines.last() + "\n"@
    }
}

/// What a search is answered.
pub open spec fn search_report(
    q: TrainQueryModel,
    used_date: Seq<char>,
    codes: (Seq<char>, Seq<char>),
    t: Seq<(Seq<char>, Seq<char>)>,
    rows: Seq<Seq<char>>,
) -> Seq<char> {
    let route = q.date + " "@ + q.from + "→"@ + q.to;
    if rows.len() == 0 {
        route
            + " 无直达车次。可尝试：①换邻近大站（如地级市站）重新查 ②查中转方案（分段 search_trains）③search_web 补充参考。"@
    } else {
        let lines = row_lines(t, rows);
        if lines.len() == 0 {
            route + " 查询结果解析为空（12306 可能改版），请用 search_web 交叉确认。"@
        } else {
            let note = if used_date == q.date {
                Seq::empty()
            } else {
                "注意："@ + q.date + " 尚未开售（12306 预售期约 15 天），已改查 "@ + used_date
                    + " 的车次，仅供节奏/耗时参考。\n"@
            };
            note + used_date + " "@ + q.from + "("@ + codes.0 + ")→"@ + q.to + "("@ + codes.1
                + ") 共 "@ + text::dec(lines.len()) + " 趟：\n"@ + indented(lines)
                + "提示：数据实时，余票随时变动；购买以 12306 为准。"@
        }
    }
}

/// A report names the day and the stations of the search; it says so where there is no train or no
/// row can be read, and otherwise how many lines there are, with each of them on its own line. Where
/// another day was asked for than the named one, it begins with a note that names both.
pub proof fn law_reports_tell_the_search(
    q: TrainQueryModel,
    used_date: Seq<char>,
    codes: (Seq<char>, Seq<char>),
    t: Seq<(Seq<char>, Seq<char>)>,
    rows: Seq<Seq<char>>,
) -> (lines: Seq<Seq<char>>)
    ensures
        ({
            let r = search_report(q, used_date, codes, t, rows);
            let n = row_lines(t, rows).len();
            let told = used_date + " "@ + q.from + "("@ + codes.0 + ")→"@ + q.to + "("@ + codes.1
                + ") 共 "@ + text::dec(n) + " 趟：\n"@ + text::run_together(lines)
                + "提示：数据实时，余票随时变动；购买以 12306 为准。"@;
            &&& rows.len() == 0 ==> r == q.date + " "@ + q.from + "→"@ + q.to
                + " 无直达车次。可尝试：①换邻近大站（如地级市站）重新查 ②查中转方案（分段 search_trains）③search_web 补充参考。"@
            &&& rows.len() > 0 && n == 0 ==> r == q.date + " "@ + q.from + "→"@ + q.to
                + " 查询结果解析为空（12306 可能改版），请用 search_web 交叉确认。"@
            &&& rows.len() > 0 && n > 0 && used_date == q.date ==> r == told
            &&& rows.len() > 0 && n > 0 && used_date != q.date ==> r == "注意："@ + q.date
                + " 尚未开售（12306 预售期约 15 天），已改查 "@ + used_date
                + " 的车次，仅供节奏/耗时参考。\n"@ + told
        }),
        lines.len() == row_lines(t, rows).len(),
        forall|i: int|
            0 <= i < lines.len() ==> #[trigger] lines[i] == "  "@ + row_lines(t, rows)[i] + "\n"@,
{
    let shown = row_lines(t, rows);
    let lines = lemma_indented(shown);
    let head = used_date + " "@ + q.from + "("@ + codes.0 + ")→"@ + q.to + "("@ + codes.1 + ") 共 "@
        + text::dec(shown.len()) + " 趟：\n"@;
    let tail = indented(shown) + "提示：数据实时，余票随时变动；购买以 12306 为准。"@;
    let none = Seq::<char>::empty();
    if rows.len() > 0 && shown.len() > 0 {
        let note = if used_date == q.date {
            none
        } else {
            "注意："@ + q.date + " 尚未开售（12306 预售期约 15 天），已改查 "@ + used_date
                + " 的车次，仅供节奏/耗时参考。\n"@
        };
        assert(search_report(q, used_date, codes, t, rows) =~= note + (head + indented(shown)
            + "提示：数据实时，余票随时变动；购买以 12306 为准。"@));
        assert(none + (head + indented(shown)
            + "提示：数据实时，余票随时变动；购买以 12306 为准。"@) =~= head + indented(shown)
            + "提示：数据实时，余票随时变动；购买以 12306 为准。"@);
    }
    lines
}

proof fn lemma_indented(shown: Seq<Seq<char>>) -> (lines: Seq<Seq<char>>)
    ensures
        indented(shown) == text::run_together(lines),
        lines.len() == shown.len(),
        forall|i: int| 0 <= i < lines.len() ==> #[trigger] lines[i] == "  "@ + shown[i] + "\n"@,
    decreases shown.len(),
{
    if shown.len() == 0 {
        Seq::empty()
    } else {
        let before = lemma_indented(shown.drop_last());
        let lines = before.push("  "@ + shown.last() + "\n"@);
        assert(lines.drop_last() =~= before);
        assert(indented(shown) =~= indented(shown.drop_last()) + lines.last());
        assert forall|i: int| 0 <= i < lines.len() implies #[trigger] lines[i] == "  "@ + shown[i]
            + "\n"@ by {
            if i < before.len() {
                assert(lines[i] == before[i]);
            }
        }
        lines
    }
}

/// Writes the answer to a search from the rows that came back.
pub fn report(
    query: &TrainQuery,
    used_date: &str,
    from_code: &str,
    to_code: &str,
    table: &Vec<(String, String)>,
    rows: &Vec<String>,
) -> (r: String)
    ensures
        r@ == search_report(
            query@,
            used_date@,
            (from_code@, to_code@),
            station_views(table@),
            text::views(rows@),
        ),
{
    let mut route = text::copy_text(query.date.as_str());
    route.append(" ");
    route.append(query.from.as_str());
    route.append("→");
    route.append(query.to.as_str());
    if rows.len() == 0 {
        route.append(
            " 无直达车次。可尝试：①换邻近大站（如地级市站）重新查 ②查中转方案（分段 search_trains）③search_web 补充参考。",
        );
        return route;
    }
    let lines = lines_of_rows(table, rows);
    assert(text::views(lines@).len() == lines@.len());
    if lines.len() == 0 {
        route.append(" 查询结果解析为空（12306 可能改版），请用 search_web 交叉确认。");
        return route;
    }
    let mut out = String::new();
    if !text::same(used_date, query.date.as_str()) {
        out.append("注意：");
        out.append(query.date.as_str());
        out.append(" 尚未开售（12306 预售期约 15 天），已改查 ");
        out.append(used_date);
        out.append(" 的车次，仅供节奏/耗时参考。\n");
        assert(out@ =~= "注意："@ + query.date@ + " 尚未开售（12306 预售期约 15 天），已改查 "@
            + used_date@ + " 的车次，仅供节奏/耗时参考。\n"@);
    }
    out.append(used_date);
    out.append(" ");
    out.append(query.from.as_str());
    out.append("(");
    out.append(from_code);
    out.append(")→");
    out.append(query.to.as_str());
    out.append("(");
    out.append(to_code);
    out.append(") 共 ");
    out.append(text::number(lines.len() as u64).as_str());
    out.append(" 趟：\n");
    let ghost head = out@;
    let ghost all = text::views(lines@);
    let mut i: usize = 0;
    assert(out@ =~= head + indented(all.take(0)));
    while i < lines.len()
        invariant
            i <= lines@.len(),
            all == text::views(lines@),
            out@ == head + indented(all.take(i as int)),
        decreases lines@.len() - i,
    {
        out.append("  ");
        out.append(lines[i].as_str());
        out.append("\n");
        proof {
            assert(all.take(i + 1).drop_last() == all.take(i as int));
            assert(all.take(i + 1).last() == lines@[i as int]@);
            assert(out@ =~= head + indented(all.take(i + 1)));
        }
        i = i + 1;
    }
    assert(all.take(all.len() as int) == all);
    out.append("提示：数据实时，余票随时变动；购买以 12306 为准。");
    out
}

// ---- Tables, answers and cookies ----

/// A station list is its items, parted by at-signs, one station each, in order; items without one are
/// left out.
pub proof fn law_tables_hold_their_stations(items: Seq<Seq<char>>, item: Seq<char>, js: Seq<char>)
    ensures
        station_table(js) == stations_of(text::split_at_char(js, '@')),
        stations_of(Seq::empty()).len() == 0,
        station_item(item) matches Some(s) ==> stations_of(items.push(item)) == stations_of(
            items,
        ).push(s),
        station_item(item) is None ==> stations_of(items.push(item)) == stations_of(items),
{
    assert(items.push(item).drop_last() =~= items);
}

/// A station that is not known by its name is looked for with `站` behind the name.
pub proof fn law_stations_may_be_called_so(t: Seq<(Seq<char>, Seq<char>)>, name: Seq<char>)
    ensures
        station_code(t, name) is Some ==> query_code(t, name) == station_code(t, name),
        station_code(t, name) is None ==> query_code(t, name) == station_code(t, name + "站"@),
{
}

/// A reply is an answer where it comes from the railway's own host, not from a page of errors, and
/// calls itself JSON.
pub proof fn law_answers_come_from_the_railway(
    host: Option<Seq<char>>,
    path: Seq<char>,
    kind: Seq<char>,
)
    ensures
        host != Some("kyfw.12306.cn"@) ==> !is_answer(host, path, kind),
        text::contains(path, "/error"@) ==> !is_answer(host, path, kind),
        !text::contains(text::lowered(kind), "json"@) ==> !is_answer(host, path, kind),
        host == Some("kyfw.12306.cn"@) && !text::contains(path, "/error"@) && text::contains(
            text::lowered(kind),
            "json"@,
        ) ==> is_answer(host, path, kind),
{
}

/// The rows of an answer are the texts in the list under `data` and `result`, in order.
pub proof fn law_rows_are_the_texts_of_the_answer(
    v: JsonTree,
    data: JsonTree,
    items: Seq<JsonTree>,
    item: JsonTree,
)
    ensures
        v.entry("data"@) is None ==> answer_rows(v).len() == 0,
        v.entry("data"@) == Some(data) && data.list_at("result"@) is None ==> answer_rows(v).len() == 0,
        v.entry("data"@) == Some(data) && data.list_at("result"@) == Some(items) ==> answer_rows(v)
            == texts_among(items),
        texts_among(Seq::empty()).len() == 0,
        item matches JsonTree::Text(s) ==> texts_among(items.push(item)) == texts_among(items).push(s),
        item !is Text ==> texts_among(items.push(item)) == texts_among(items),
{
    assert(items.push(item).drop_last() =~= items);
}

/// Of each cookie that is set, what stands before the first semicolon is sent back, parted by
/// semicolons and blanks.
pub proof fn law_cookies_are_sent_back(headers: Seq<Seq<char>>, h: Seq<char>, c: Seq<char>)
    requires
        forall|i: int| 0 <= i < c.len() ==> #[trigger] c[i] != ';',
    ensures
        cookies_of(Seq::empty()).len() == 0,
        cookies_of(seq![c]) == c,
        headers.len() > 0 ==> cookies_of(headers.push(h)) == cookies_of(headers) + "; "@
            + text::split_at_char(h, ';')[0],
        headers.len() > 0 ==> cookies_of(headers.push(c)) == cookies_of(headers) + "; "@ + c,
{
    let part = |x: Seq<char>| text::split_at_char(x, ';')[0];
    text::law_pieces_are_between_separators(Seq::empty(), c, ';');
    assert(text::split_at_char(c, ';')[0] == c);
    assert(headers.push(h).map_values(part) =~= headers.map_values(part).push(part(h)));
    assert(headers.push(c).map_values(part) =~= headers.map_values(part).push(c));
    assert(seq![c].map_values(part) =~= seq![c]);
    assert(headers.map_values(part).push(part(h)).drop_last() =~= headers.map_values(part));
    assert(headers.map_values(part).push(c).drop_last() =~= headers.map_values(part));
    assert(Seq::<Seq<char>>::empty().map_values(part) =~= Seq::empty());
}

} // verus!
