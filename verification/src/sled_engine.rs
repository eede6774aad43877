//! The sled engine: the engine's three operations over a sled database.

use crate::engine::KvsEngine;
use crate::error::KvsError;
use vstd::prelude::*;
use vstd::string::StrSliceExecFns;
use vstd::utf8::{encode_utf8, valid_utf8};

verus! {

/// `sled::Db`, a handle of a database of which nothing is known here.
#[verifier::external_type_specification]
#[verifier::external_body]
pub struct ExDb(sled::Db);

/// `sled::Error`, of which nothing is known but its words.
#[verifier::external_type_specification]
#[verifier::external_body]
pub struct ExSledError(sled::Error);

/// `Clone` for `sled::Db`: another handle of the same database.
pub assume_specification[ <sled::Db as Clone>::clone ](db: &sled::Db) -> sled::Db;

/// `sled::Tree::insert` on the database's default tree. What it returns
/// depends on what the database holds.
#[verifier::external_body]
fn db_insert(db: &sled::Db, key: &str, value: Vec<u8>) -> Result<Option<Vec<u8>>, sled::Error> {
    db.insert(key, value).map(|prior| prior.map(|bytes| bytes.to_vec()))
}

/// `sled::Tree::get` on the database's default tree. What it returns depends
/// on what the database holds.
#[verifier::external_body]
fn db_get(db: &sled::Db, key: &str) -> Result<Option<Vec<u8>>, sled::Error> {
    db.get(key).map(|found| found.map(|bytes| bytes.to_vec()))
}

/// `sled::Tree::remove` on the database's default tree. What it returns
/// depends on what the database holds.
#[verifier::external_body]
fn db_remove(db: &sled::Db, key: &str) -> Result<Option<Vec<u8>>, sled::Error> {
    db.remove(key).map(|prior| prior.map(|bytes| bytes.to_vec()))
}

/// `sled::Tree::flush` on the database's default tree.
#[verifier::external_body]
fn db_flush(db: &sled::Db) -> Result<usize, sled::Error> {
    db.flush()
}

/// The words of a `sled::Error`, as its `Display` writes them.
#[verifier::external_body]
fn sled_error_text(e: &sled::Error) -> String {
    e.to_string()
}

/// `String::from_utf8`: the string that the bytes encode, if they are valid
/// UTF-8.
#[verifier::external_body]
fn string_from_utf8(bytes: Vec<u8>) -> (s: Option<String>)
    ensures
        s is Some ==> encode_utf8(s->0@) == bytes@,
        s is None ==> !valid_utf8(bytes@),
{
    String::from_utf8(bytes).ok()
}

/// What `get` answers when the database has found `found`: the bytes as a
/// string. Bytes that are not valid UTF-8 are an error.
pub fn stored_value(found: Option<Vec<u8>>) -> (r: Result<Option<String>, KvsError>)
    ensures
        match r {
            Ok(Some(value)) => found is Some && valid_utf8(found->0@) && encode_utf8(value@)
                == found->0@,
            Ok(None) => found is None,
            Err(e) => found is Some && !valid_utf8(found->0@) && e is Utf8Err,
        },
{
    proof {
        if found is Some && valid_utf8(found->0@) {
        } else if found is Some {
            assert forall|s: Seq<char>| encode_utf8(s) != found->0@ by {
                vstd::utf8::encode_utf8_valid_utf8(s);
            }
        }
    }
    match found {
        Some(bytes) => match string_from_utf8(bytes) {
            Some(value) => Ok(Some(value)),
            None => Err(KvsError::Utf8Err),
        },
        None => Ok(None),
    }
}

/// What `remove` answers when the database held `prior` under the key: a
/// key that was not bound is an error, whatever the database makes of it.
pub fn removed(prior: Option<Vec<u8>>) -> (r: Result<(), KvsError>)
    ensures
        match r {
            Ok(()) => prior is Some,
            Err(e) => prior is None && e is KeyNotFound,
        },
{
    match prior {
        Some(_) => Ok(()),
        None => Err(KvsError::KeyNotFound),
    }
}

/// The engine over a sled database.
#[derive(Clone)]
pub struct SledStore {
    db: sled::Db,
}

impl SledStore {
    /// The database that the engine keeps its keys in.
    pub closed spec fn db_spec(&self) -> sled::Db {
        self.db
    }

    /// The engine over the database `db`.
    pub fn new(db: sled::Db) -> (store: Self)
        ensures
            store.db_spec() == db,
    {
        SledStore { db }
    }
}

impl KvsEngine for SledStore {
    open spec fn inv(&self) -> bool {
        true
    }

    /// The handle is the same; if `set` fails, the database has failed.
    open spec fn did_set(
        before: Self,
        key: Seq<char>,
        value: Seq<char>,
        after: Self,
        r: Result<(), KvsError>,
    ) -> bool {
        after.db_spec() == before.db_spec() && (r matches Err(e) ==> e is SledErr)
    }

    /// The handle is the same; if `get` fails, the database has failed or
    /// the bytes found are not valid UTF-8.
    open spec fn did_get(
        before: Self,
        key: Seq<char>,
        after: Self,
        r: Result<Option<String>, KvsError>,
    ) -> bool {
        after.db_spec() == before.db_spec() && (r matches Err(e) ==> e is SledErr || e is Utf8Err)
    }

    /// The handle is the same; if `remove` fails, the database has failed
    /// or the key was not bound.
    open spec fn did_remove(before: Self, key: Seq<char>, after: Self, r: Result<(), KvsError>) -> bool {
        after.db_spec() == before.db_spec() && (r matches Err(e) ==> e is SledErr
            || e is KeyNotFound)
    }

    /// Inserts the value's bytes under the key and flushes the database.
    fn set(&mut self, key: String, value: String) -> (r: Result<(), KvsError>)
    {
        match db_insert(&self.db, key.as_str(), value.as_str().as_bytes_vec()) {
            Ok(_) => {},
            Err(e) => {
                return Err(KvsError::SledErr(sled_error_text(&e)));
            },
        }
        match db_flush(&self.db) {
            Ok(_) => Ok(()),
            Err(e) => Err(KvsError::SledErr(sled_error_text(&e))),
        }
    }

    /// Looks the key up and reads the bytes found as a string.
    fn get(&mut self, key: String) -> (r: Result<Option<String>, KvsError>)
    {
        match db_get(&self.db, key.as_str()) {
            Ok(found) => stored_value(found),
            Err(e) => Err(KvsError::SledErr(sled_error_text(&e))),
        }
    }

    /// Removes the key and flushes the database.
    fn remove(&mut self, key: String) -> (r: Result<(), KvsError>)
    {
        let prior = match db_remove(&self.db, key.as_str()) {
            Ok(prior) => prior,
            Err(e) => {
                return Err(KvsError::SledErr(sled_error_text(&e)));
            },
        };
        match removed(prior) {
            Ok(()) => {},
            Err(e) => {
                return Err(e);
            },
        }
        match db_flush(&self.db) {
            Ok(_) => Ok(()),
            Err(e) => Err(KvsError::SledErr(sled_error_text(&e))),
        }
    }
}

} // verus!
