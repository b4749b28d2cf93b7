use vstd::prelude::*;

use crate::calendar::Calendar;
use crate::election::Election;
use crate::errors::CalendarError;
use crate::event::Event;
use crate::generator::{
    all_elections_wf, all_events_wf, all_recurring, generate_calendar, generated_calendar_ok,
};
use crate::time::{EPOCH_SECONDS, INSTANT_LIMIT};

verus! {

/// The forward planning window of the directory's generated calendar:
/// 7460 real minutes (about five days) past "now".
pub const DEFAULT_WINDOW_SECONDS: i64 = 447_600;

/// The given calendar under a new identity.
pub open spec fn calendar_with_id(c: Calendar, id: u64) -> Calendar {
    Calendar { id, title: c.title, description: c.description, events: c.events }
}

/// The given user under a new identity.
pub open spec fn user_with_id(u: User, id: u64) -> User {
    User { id, name: u.name, calendars: u.calendars }
}

/// An identity owning calendars; each calendar's identity is assigned when
/// it is inserted.
#[derive(Debug)]
pub struct User {
    pub id: u64,
    pub name: String,
    pub calendars: Vec<(u64, Calendar)>,
}

impl User {
    /// The user invariant: each calendar's key is its insertion index, and
    /// equals the calendar's own identity.
    pub open spec fn wf(&self) -> bool {
        forall|i: int|
            0 <= i < self.calendars@.len() ==> (#[trigger] self.calendars@[i]).0 == i
                && self.calendars@[i].1.id == i
    }

    /// A fresh user without calendars; its identity is assigned when it is
    /// added to a directory.
    pub fn new(name: String) -> (r: Self)
        ensures
            r.name == name,
            r.id == 0,
            r.calendars@.len() == 0,
            r.wf(),
    {
        User { id: 0, name, calendars: Vec::new() }
    }

    pub fn get_id(&self) -> (r: u64)
        ensures
            r == self.id,
    {
        self.id
    }

    pub fn get_name(&self) -> (r: String)
        ensures
            r == self.name,
    {
        self.name.clone()
    }

    /// Inserts a calendar under a fresh identity (its insertion index); the
    /// calendar's previous identity is discarded.
    pub fn add_calendar(&mut self, calendar: Calendar)
        requires
            old(self).wf(),
        ensures
            final(self).wf(),
            final(self).calendars@ == old(self).calendars@.push(
                (
                    old(self).calendars@.len() as u64,
                    calendar_with_id(calendar, old(self).calendars@.len() as u64),
                ),
            ),
            final(self).id == old(self).id,
            final(self).name == old(self).name,
    {
        let key: u64 = self.calendars.len() as u64;
        let mut calendar = calendar;
        calendar.id = key;
        self.calendars.push((key, calendar));
    }

    /// The calendar stored under the given identity, if any.
    pub fn get_calendar(&self, id: u64) -> (r: Option<&Calendar>)
        requires
            self.wf(),
        ensures
            match r {
                Some(c) => id < self.calendars@.len() && *c == self.calendars@[id as int].1,
                None => id >= self.calendars@.len(),
            },
    {
        let n: usize = self.calendars.len();
        if id < n as u64 {
            Some(&self.calendars[id as usize].1)
        } else {
            None
        }
    }

    /// All owned calendars, in insertion order.
    pub fn list_calendars(&self) -> (r: Vec<&Calendar>)
        ensures
            r@.len() == self.calendars@.len(),
            forall|i: int|
                0 <= i < r@.len() ==> r@[i] == &(#[trigger] self.calendars@[i]).1,
    {
        let mut out: Vec<&Calendar> = Vec::new();
        let mut idx: usize = 0;
        while idx < self.calendars.len()
            invariant
                0 <= idx <= self.calendars@.len(),
                out@.len() == idx,
                forall|j: int| 0 <= j < idx ==> out@[j] == &(#[trigger] self.calendars@[j]).1,
            decreases self.calendars@.len() - idx,
        {
            out.push(&self.calendars[idx].1);
            idx = idx + 1;
        }
        out
    }
}

/// The directory of all users. At construction it synthesizes the well-known
/// "GLOBAL" user holding one generated calendar that covers the default
/// forward window from "now".
#[derive(Debug)]
pub struct DataBase {
    pub users: Vec<(u64, User)>,
}

impl DataBase {
    /// The directory invariant: each user's key is its insertion index, and
    /// equals the user's own identity.
    pub open spec fn wf(&self) -> bool {
        forall|i: int|
            0 <= i < self.users@.len() ==> (#[trigger] self.users@[i]).0 == i
                && self.users@[i].1.id == i
    }

    /// A directory holding the "GLOBAL" user, whose single calendar covers
    /// `[now, now + DEFAULT_WINDOW_SECONDS)` from the supplied sources.
    pub fn new(
        now: i64,
        previous_events: &Vec<Event>,
        previous_elections: &Vec<Election>,
    ) -> (r: DataBase)
        requires
            EPOCH_SECONDS <= now,
            now + DEFAULT_WINDOW_SECONDS <= INSTANT_LIMIT,
            all_events_wf(previous_events.deep_view()),
            all_elections_wf(previous_elections.deep_view()),
            all_recurring(previous_events.deep_view()),
        ensures
            r.wf(),
            r.users@.len() == 1,
            r.users@[0].1.name@ == "GLOBAL"@,
            r.users@[0].1.calendars@.len() == 1,
            generated_calendar_ok(
                r.users@[0].1.calendars@[0].1,
                now as int,
                now + DEFAULT_WINDOW_SECONDS,
                previous_events.deep_view(),
                previous_elections.deep_view(),
            ),
    {
        let mut db = DataBase { users: Vec::new() };
        let mut global_user = User::new(String::from_str("GLOBAL"));
        let skyblock = match generate_calendar(
            now,
            now + DEFAULT_WINDOW_SECONDS,
            previous_events,
            previous_elections,
        ) {
            Ok(cal) => cal,
            Err(_) => {
                proof {
                    assert(false);
                }
                vstd::pervasive::unreached()
            },
        };
        global_user.add_calendar(skyblock);
        db.add_user(global_user);
        db
    }

    /// Inserts a user under a fresh identity (its insertion index); the
    /// user's previous identity is discarded.
    pub fn add_user(&mut self, user: User)
        requires
            old(self).wf(),
        ensures
            final(self).wf(),
            final(self).users@ == old(self).users@.push(
                (old(self).users@.len() as u64, user_with_id(user, old(self).users@.len() as u64)),
            ),
    {
        let key: u64 = self.users.len() as u64;
        let mut user = user;
        user.id = key;
        self.users.push((key, user));
    }

    /// The user stored under the given identity, if any.
    pub fn get_user(&self, user_id: u64) -> (r: Option<&User>)
        requires
            self.wf(),
        ensures
            match r {
                Some(u) => user_id < self.users@.len() && *u == self.users@[user_id as int].1,
                None => user_id >= self.users@.len(),
            },
    {
        let n: usize = self.users.len();
        if user_id < n as u64 {
            Some(&self.users[user_id as usize].1)
        } else {
            None
        }
    }

    /// All users, in insertion order.
    pub fn list_users(&self) -> (r: Vec<&User>)
        ensures
            r@.len() == self.users@.len(),
            forall|i: int| 0 <= i < r@.len() ==> r@[i] == &(#[trigger] self.users@[i]).1,
    {
        let mut out: Vec<&User> = Vec::new();
        let mut idx: usize = 0;
        while idx < self.users.len()
            invariant
                0 <= idx <= self.users@.len(),
                out@.len() == idx,
                forall|j: int| 0 <= j < idx ==> out@[j] == &(#[trigger] self.users@[j]).1,
            decreases self.users@.len() - idx,
        {
            out.push(&self.users[idx].1);
            idx = idx + 1;
        }
        out
    }
}

} // verus!
