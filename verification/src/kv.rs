use vstd::prelude::*;

use crate::errors::Error;

verus! {

// ------------------------------------------------------------------
// The persistent ordered key-value store, kept behind trusted
// wrappers.  The library sees a store only as the map from keys to
// values that `kv_view` names; every wrapper states its effect on
// that map.
// ------------------------------------------------------------------

#[verifier::external_type_specification]
#[verifier::external_body]
pub struct ExDb(sled::Db);

/// What the store holds: its map from keys to values.
pub uninterp spec fn kv_view(db: sled::Db) -> Map<Seq<u8>, Seq<u8>>;

/// The empty store contents.
pub open spec fn empty_store() -> Map<Seq<u8>, Seq<u8>> {
    Map::empty()
}

/// Relies on `sled::open`: opens (creating if absent) the store at
/// the given path.  Nothing is assumed of its contents.
#[verifier::external_body]
pub fn kv_open(path: &str) -> (r: Result<sled::Db, Error>) {
    sled::open(path).map_err(|_| Error::Io)
}

/// Relies on `sled::Tree::get`: the value stored under the key, if
/// any.
#[verifier::external_body]
pub fn kv_get(db: &sled::Db, key: &[u8]) -> (r: Result<Option<Vec<u8>>, Error>)
    ensures
        r matches Err(e) ==> e == Error::Io,
        r matches Ok(v) ==> match v {
            Some(b) => kv_view(*db).dom().contains(key@) && kv_view(*db)[key@] == b@,
            None => !kv_view(*db).dom().contains(key@),
        },
{
    db.get(key).map(|o| o.map(|iv| iv.to_vec())).map_err(|_| Error::Io)
}

/// Relies on `sled::Tree::insert`: stores the value under the key.
#[verifier::external_body]
pub fn kv_insert(db: &mut sled::Db, key: &[u8], value: &[u8]) -> (r: Result<(), Error>)
    ensures
        r matches Err(e) ==> e == Error::Io,
        r is Ok ==> kv_view(*final(db)) == kv_view(*old(db)).insert(key@, value@),
{
    db.insert(key, value).map(|_| ()).map_err(|_| Error::Io)
}

/// Relies on `sled::Tree::remove`: removes the key.
#[verifier::external_body]
pub fn kv_remove(db: &mut sled::Db, key: &[u8]) -> (r: Result<(), Error>)
    ensures
        r matches Err(e) ==> e == Error::Io,
        r is Ok ==> kv_view(*final(db)) == kv_view(*old(db)).remove(key@),
{
    db.remove(key).map(|_| ()).map_err(|_| Error::Io)
}

/// Relies on `sled::Tree::clear`: removes every key.
#[verifier::external_body]
pub fn kv_clear(db: &mut sled::Db) -> (r: Result<(), Error>)
    ensures
        r matches Err(e) ==> e == Error::Io,
        r is Ok ==> kv_view(*final(db)) == empty_store(),
{
    db.clear().map_err(|_| Error::Io)
}

/// Relies on `sled::Tree::flush`: forces written data to disk;
/// durability is not modelled, so nothing further is assumed.
#[verifier::external_body]
pub fn kv_flush(db: &sled::Db) -> (r: Result<(), Error>)
    ensures
        r matches Err(e) ==> e == Error::Io,
{
    db.flush().map(|_| ()).map_err(|_| Error::Io)
}

/// Relies on `sled::Tree::iter`: every pair the store holds, each key
/// once; the order is not relied on.
#[verifier::external_body]
pub fn kv_entries(db: &sled::Db) -> (r: Result<Vec<(Vec<u8>, Vec<u8>)>, Error>)
    ensures
        r matches Err(e) ==> e == Error::Io,
        r matches Ok(v) ==> (forall|i: int|
            0 <= i < v@.len() ==> kv_view(*db).dom().contains((#[trigger] v@[i]).0@) && kv_view(
                *db,
            )[v@[i].0@] == v@[i].1@),
        r matches Ok(v) ==> (forall|i: int, j: int|
            0 <= i < j < v@.len() ==> (#[trigger] v@[i]).0@ != (#[trigger] v@[j]).0@),
        r matches Ok(v) ==> (forall|k: Seq<u8>|
            #[trigger] kv_view(*db).dom().contains(k) ==> exists|i: int|
                0 <= i < v@.len() && (#[trigger] v@[i]).0@ == k),
{
    let mut out = Vec::new();
    for e in db.iter() {
        match e {
            Ok((k, v)) => out.push((k.to_vec(), v.to_vec())),
            Err(_) => return Err(Error::Io),
        }
    }
    Ok(out)
}

} // verus!
