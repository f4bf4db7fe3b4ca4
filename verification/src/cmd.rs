//! A command and what it does to the store.
//!
//! Each handler takes the store and, where time matters, the instant at which
//! it runs. A handler reads its arguments by position and asks that they are
//! there; the dispatcher checks their number before it calls one.

use vstd::prelude::*;
use vstd::string::*;

use crate::db::{
    counter_result,
    counter_store,
    lists_keys,
    live,
    opt_text,
    store_get,
    store_purge,
    store_set,
    CounterError,
    Store,
    DB,
};
use crate::text::texts;

verus! {

/// How many of the keys have a live entry, a key counted as often as it is
/// named.
pub open spec fn live_count(store: Store, keys: Seq<Seq<char>>, now: u128) -> nat
    decreases keys.len(),
{
    if keys.len() == 0 {
        0
    } else {
        live_count(store, keys.drop_last(), now) + if live(store, keys.last(), now) {
            1nat
        } else {
            0nat
        }
    }
}

/// A command: its name as it was received, and its arguments.
#[derive(Debug)]
pub struct Commands {
    commands: String,
    pub args: Vec<String>,
}

impl Commands {
    /// The name of the command.
    pub closed spec fn name(&self) -> Seq<char> {
        self.commands@
    }

    /// The arguments of the command.
    pub closed spec fn arguments(&self) -> Seq<Seq<char>> {
        texts(self.args@)
    }

    /// A command with this name and these arguments.
    pub fn new(commands: String, args: Vec<String>) -> (c: Commands)
        ensures
            c.name() == commands@,
            c.arguments() == texts(args@),
    {
        Commands { commands, args }
    }

    /// The value under the first argument.
    pub fn handle_get_command(&self, db: &mut DB, now: u128) -> (r: Option<String>)
        requires
            self.arguments().len() >= 1,
        ensures
            opt_text(r) == store_get(old(db)@, self.arguments()[0], now),
            final(db)@ == store_purge(old(db)@, self.arguments()[0], now),
    {
        db.get_at(&self.args[0], now)
    }

    /// Sets the first argument to the second, never to expire.
    pub fn handle_set_command(&self, db: &mut DB, now: u128)
        requires
            self.arguments().len() >= 2,
        ensures
            final(db)@ == store_set(old(db)@, self.arguments()[0], self.arguments()[1], None, now),
    {
        db.set_at(self.args[0].clone(), self.args[1].clone(), None, now);
    }

    /// Takes the first argument out of the store.
    pub fn handle_del_command(&self, db: &mut DB)
        requires
            self.arguments().len() >= 1,
        ensures
            final(db)@ == old(db)@.remove(self.arguments()[0]),
    {
        db.remove(&self.args[0]);
    }

    /// The live keys that contain the first argument.
    pub fn handle_keys_command(&self, db: &DB, now: u128) -> (out: Vec<String>)
        requires
            self.arguments().len() >= 1,
        ensures
            texts(out@) == db.listing(self.arguments()[0], now),
            lists_keys(texts(out@), db@, self.arguments()[0], now),
    {
        db.keys_at(&self.args[0], now)
    }

    /// How many of the arguments are live keys.
    pub fn handle_exists_command(&self, db: &DB, now: u128) -> (count: i32)
        requires
            self.arguments().len() <= i32::MAX,
        ensures
            count == live_count(db@, self.arguments(), now),
    {
        let n: usize = self.args.len();
        let mut count: i32 = 0;
        let mut i: usize = 0;
        while i < n
            invariant
                i <= n,
                n == self.args@.len(),
                n <= i32::MAX,
                count == live_count(db@, texts(self.args@).subrange(0, i as int), now),
                count <= i,
            decreases n - i,
        {
            let ghost done = texts(self.args@).subrange(0, i + 1);
            assert(done.drop_last() =~= texts(self.args@).subrange(0, i as int));
            assert(done.last() == self.args@[i as int]@);
            if db.exists_at(&self.args[i], now) {
                count = count + 1;
            }
            i = i + 1;
        }
        assert(texts(self.args@).subrange(0, n as int) =~= texts(self.args@));
        count
    }

    /// The first argument, or `PONG` if there is none.
    pub fn handle_ping_command(&self) -> (r: String)
        ensures
            r@ == if self.arguments().len() == 0 {
                "PONG"@
            } else {
                self.arguments()[0]
            },
    {
        if self.args.len() == 0 {
            String::from_str("PONG")
        } else {
            self.args[0].clone()
        }
    }

    /// Empties the store.
    pub fn handle_flushall_command(&self, db: &mut DB)
        ensures
            final(db)@ == Store::empty(),
    {
        db.flushall();
    }

    /// Adds one to the counter under the first argument.
    pub fn handle_incr_command(&self, db: &mut DB, now: u128) -> (r: Result<i32, CounterError>)
        requires
            self.arguments().len() >= 1,
        ensures
            r == counter_result(old(db)@, self.arguments()[0], now, 1),
            final(db)@ == counter_store(old(db)@, self.arguments()[0], now, 1),
    {
        db.increment_at(&self.args[0], now)
    }

    /// Takes one from the counter under the first argument.
    pub fn handle_decr_command(&self, db: &mut DB, now: u128) -> (r: Result<i32, CounterError>)
        requires
            self.arguments().len() >= 1,
        ensures
            r == counter_result(old(db)@, self.arguments()[0], now, -1),
            final(db)@ == counter_store(old(db)@, self.arguments()[0], now, -1),
    {
        db.decrement_at(&self.args[0], now)
    }
}

} // verus!
