//! Snapshot naming and snapshot path rules: how snapshot files are named,
//! and when a requested snapshot path is accepted as lying inside the
//! snapshots directory.

use vstd::prelude::*;
use vstd::string::StringSliceAdditionalSpecFns;

use crate::types::CollectionError;

verus! {

broadcast use vstd::seq_lib::group_seq_properties;

/// The decimal digit character of `d`.
pub open spec fn spec_digit_char(d: int) -> char {
    if d == 0 {
        '0'
    } else if d == 1 {
        '1'
    } else if d == 2 {
        '2'
    } else if d == 3 {
        '3'
    } else if d == 4 {
        '4'
    } else if d == 5 {
        '5'
    } else if d == 6 {
        '6'
    } else if d == 7 {
        '7'
    } else if d == 8 {
        '8'
    } else {
        '9'
    }
}

/// The decimal representation of `n`, most significant digit first.
pub open spec fn spec_dec(n: nat) -> Seq<char>
    decreases n,
{
    if n < 10 {
        seq![spec_digit_char(n as int)]
    } else {
        spec_dec(n / 10).push(spec_digit_char((n % 10) as int))
    }
}

fn digit_str(d: u64) -> (r: &'static str)
    requires
        d < 10,
    ensures
        r@ =~= seq![spec_digit_char(d as int)],
{
    proof {
        reveal_strlit("0");
        reveal_strlit("1");
        reveal_strlit("2");
        reveal_strlit("3");
        reveal_strlit("4");
        reveal_strlit("5");
        reveal_strlit("6");
        reveal_strlit("7");
        reveal_strlit("8");
        reveal_strlit("9");
    }
    match d {
        0 => "0",
        1 => "1",
        2 => "2",
        3 => "3",
        4 => "4",
        5 => "5",
        6 => "6",
        7 => "7",
        8 => "8",
        _ => "9",
    }
}

/// Decimal string of an unsigned number.
pub fn u64_to_dec_string(n: u64) -> (r: String)
    ensures
        r@ == spec_dec(n as nat),
    decreases n,
{
    if n < 10 {
        String::from_str(digit_str(n))
    } else {
        let mut s = u64_to_dec_string(n / 10);
        s.append(digit_str(n % 10));
        s
    }
}

/// Name of a collection snapshot:
/// `<collection>-<peer>-<timestamp>.snapshot`.
pub open spec fn spec_snapshot_name(collection: Seq<char>, peer: u64, ts: Seq<char>) -> Seq<
    char,
> {
    collection + seq!['-'] + spec_dec(peer as nat) + seq!['-'] + ts + seq![
        '.',
        's',
        'n',
        'a',
        'p',
        's',
        'h',
        'o',
        't',
    ]
}

/// Name of a per-shard snapshot:
/// `<collection>-shard-<id>-<timestamp>.snapshot`.
pub open spec fn spec_shard_snapshot_name(collection: Seq<char>, shard: u32, ts: Seq<
    char,
>) -> Seq<char> {
    collection + seq!['-', 's', 'h', 'a', 'r', 'd', '-'] + spec_dec(shard as nat) + seq![
        '-',
    ] + ts + seq!['.', 's', 'n', 'a', 'p', 's', 'h', 'o', 't']
}

/// Build the file name of a collection snapshot taken now (the timestamp is
/// passed in, most often from [`utc_timestamp`]).
pub fn format_snapshot_name(collection: &str, peer_id: u64, ts: &str) -> (r: String)
    ensures
        r@ == spec_snapshot_name(collection@, peer_id, ts@),
{
    proof {
        reveal_strlit("-");
        reveal_strlit(".snapshot");
        assert("-"@ =~= seq!['-']);
        assert(".snapshot"@ =~= seq!['.', 's', 'n', 'a', 'p', 's', 'h', 'o', 't']);
    }
    let mut s = String::from_str(collection);
    s.append("-");
    let peer_s = u64_to_dec_string(peer_id);
    s.append(peer_s.as_str());
    s.append("-");
    s.append(ts);
    s.append(".snapshot");
    s
}

/// Build the file name of a per-shard snapshot taken now.
pub fn format_shard_snapshot_name(collection: &str, shard_id: u32, ts: &str) -> (r: String)
    ensures
        r@ == spec_shard_snapshot_name(collection@, shard_id, ts@),
{
    proof {
        reveal_strlit("-shard-");
        reveal_strlit("-");
        reveal_strlit(".snapshot");
        assert("-shard-"@ =~= seq!['-', 's', 'h', 'a', 'r', 'd', '-']);
        assert("-"@ =~= seq!['-']);
        assert(".snapshot"@ =~= seq!['.', 's', 'n', 'a', 'p', 's', 'h', 'o', 't']);
    }
    let mut s = String::from_str(collection);
    s.append("-shard-");
    let shard_s = u64_to_dec_string(shard_id as u64);
    s.append(shard_s.as_str());
    s.append("-");
    s.append(ts);
    s.append(".snapshot");
    s
}

/// A timestamp shape: only decimal digits and dashes, long enough for
/// `YYYY-MM-DD-HH-MM-SS`.
pub open spec fn spec_is_timestamp(ts: Seq<char>) -> bool {
    ts.len() >= 19 && forall|i: int| 0 <= i < ts.len() ==> (ts[i] == '-' || ('0' <= ts[i] && ts[i] <= '9'))
}

/// Relies on chrono: `Utc::now()` formatted as `%Y-%m-%d-%H-%M-%S`. The value
/// depends on the clock, so only the shape is stated: at least 19 characters,
/// all of them decimal digits or dashes.
#[verifier::external_body]
fn utc_timestamp() -> (r: String)
    ensures
        spec_is_timestamp(r@),
{
    chrono::Utc::now().format("%Y-%m-%d-%H-%M-%S").to_string()
}

/// Name a collection snapshot taken now:
/// `<collection>-<peer>-<timestamp>.snapshot` with a fresh UTC timestamp.
pub fn generate_snapshot_name(collection: &str, peer_id: u64) -> (r: String)
    ensures
        exists|ts: Seq<char>|
            #[trigger] spec_is_timestamp(ts) && r@ == spec_snapshot_name(
                collection@,
                peer_id,
                ts,
            ),
{
    let ts = utc_timestamp();
    let r = format_snapshot_name(collection, peer_id, ts.as_str());
    proof {
        assert(spec_is_timestamp(ts@) && r@ == spec_snapshot_name(collection@, peer_id, ts@));
    }
    r
}

/// Name a per-shard snapshot taken now:
/// `<collection>-shard-<id>-<timestamp>.snapshot` with a fresh UTC
/// timestamp.
pub fn generate_shard_snapshot_name(collection: &str, shard_id: u32) -> (r: String)
    ensures
        exists|ts: Seq<char>|
            #[trigger] spec_is_timestamp(ts) && r@ == spec_shard_snapshot_name(
                collection@,
                shard_id,
                ts,
            ),
{
    let ts = utc_timestamp();
    let r = format_shard_snapshot_name(collection, shard_id, ts.as_str());
    proof {
        assert(spec_is_timestamp(ts@) && r@ == spec_shard_snapshot_name(
            collection@,
            shard_id,
            ts@,
        ));
    }
    r
}

/// A snapshot file name must be a single path component: non-empty, without
/// separators, and neither `.` nor `..` (bytes of the UTF-8 form).
pub open spec fn spec_valid_snapshot_file_name(b: Seq<u8>) -> bool {
    &&& b.len() > 0
    &&& forall|i: int| 0 <= i < b.len() ==> b[i] != 47 && b[i] != 92
    &&& b != seq![46u8]
    &&& b != seq![46u8, 46u8]
}

/// Check that a snapshot file name is a single path component.
pub fn is_valid_snapshot_file_name(name: &str) -> (r: bool)
    ensures
        r == spec_valid_snapshot_file_name(name.spec_bytes()),
{
    let b = name.as_bytes();
    let n = b.len();
    if n == 0 {
        return false;
    }
    let mut i: usize = 0;
    while i < n && b[i] != 47 && b[i] != 92
        invariant
            0 <= i <= n,
            n == b@.len(),
            b@ == name.spec_bytes(),
            forall|j: int| 0 <= j < i ==> b@[j] != 47 && b@[j] != 92,
        decreases n - i,
    {
        i = i + 1;
    }
    if i < n {
        return false;
    }
    if n == 1 && b[0] == 46 {
        assert(name.spec_bytes() =~= seq![46u8]);
        return false;
    }
    if n == 2 && b[0] == 46 && b[1] == 46 {
        assert(name.spec_bytes() =~= seq![46u8, 46u8]);
        return false;
    }
    proof {
        assert(name.spec_bytes() != seq![46u8]);
        assert(name.spec_bytes() != seq![46u8, 46u8]);
    }
    true
}

/// Is the canonical path `cand` the directory `dir` itself or a path inside
/// it? Both are canonical absolute paths without a trailing separator.
pub open spec fn spec_path_within(dir: Seq<u8>, cand: Seq<u8>) -> bool {
    cand == dir || (cand.len() > dir.len() && cand.subrange(0, dir.len() as int) == dir
        && cand[dir.len() as int] == 47)
}

/// Check that canonical path `cand` lies within canonical directory `dir`.
pub fn path_within(dir: &str, cand: &str) -> (r: bool)
    ensures
        r == spec_path_within(dir.spec_bytes(), cand.spec_bytes()),
{
    let d = dir.as_bytes();
    let c = cand.as_bytes();
    let nd = d.len();
    let nc = c.len();
    if nc < nd {
        proof {
            assert(cand.spec_bytes() != dir.spec_bytes());
            if cand.spec_bytes().len() > dir.spec_bytes().len() {
            }
        }
        return false;
    }
    let mut i: usize = 0;
    while i < nd && d[i] == c[i]
        invariant
            0 <= i <= nd,
            nd == d@.len(),
            nc == c@.len(),
            nd <= nc,
            d@ == dir.spec_bytes(),
            c@ == cand.spec_bytes(),
            forall|j: int| 0 <= j < i ==> d@[j] == c@[j],
        decreases nd - i,
    {
        i = i + 1;
    }
    if i < nd {
        proof {
            assert(c@[i as int] != d@[i as int]);
            if cand.spec_bytes() == dir.spec_bytes() {
                assert(c@[i as int] == d@[i as int]);
            }
            if cand.spec_bytes().len() > dir.spec_bytes().len() && cand.spec_bytes().subrange(
                0,
                dir.spec_bytes().len() as int,
            ) == dir.spec_bytes() {
                assert(cand.spec_bytes().subrange(0, dir.spec_bytes().len() as int)[i as int]
                    == c@[i as int]);
            }
        }
        return false;
    }
    if nc == nd {
        proof {
            assert(cand.spec_bytes() =~= dir.spec_bytes());
        }
        return true;
    }
    proof {
        assert(cand.spec_bytes().subrange(0, dir.spec_bytes().len() as int) =~= dir.spec_bytes());
        assert(cand.spec_bytes() != dir.spec_bytes());
    }
    c[nd] == 47
}

/// Directory that holds the snapshots of one shard:
/// `<snapshots path>/shards/<id>`.
pub open spec fn spec_shard_snapshots_dir(snapshots_path: Seq<char>, shard_id: u32) -> Seq<
    char,
> {
    snapshots_path + seq!['/', 's', 'h', 'a', 'r', 'd', 's', '/'] + spec_dec(shard_id as nat)
}

/// Build the directory path of one shard's snapshots.
pub fn snapshots_path_for_shard_unchecked(snapshots_path: &str, shard_id: u32) -> (r: String)
    ensures
        r@ == spec_shard_snapshots_dir(snapshots_path@, shard_id),
{
    proof {
        reveal_strlit("/shards/");
        assert("/shards/"@ =~= seq!['/', 's', 'h', 'a', 'r', 'd', 's', '/']);
    }
    let mut s = String::from_str(snapshots_path);
    s.append("/shards/");
    let id_s = u64_to_dec_string(shard_id as u64);
    s.append(id_s.as_str());
    s
}

/// Build the full path of one shard snapshot file; the file name must be a
/// single path component.
pub fn shard_snapshot_path_unchecked(snapshots_path: &str, shard_id: u32, snapshot_file_name:
    &str) -> (r: Result<String, CollectionError>)
    ensures
        r is Ok <==> spec_valid_snapshot_file_name(snapshot_file_name.spec_bytes()),
        r is Err ==> r->Err_0 is BadInput,
        r is Ok ==> r->Ok_0@ == spec_shard_snapshots_dir(snapshots_path@, shard_id) + seq![
            '/',
        ] + snapshot_file_name@,
{
    proof {
        reveal_strlit("/");
        assert("/"@ =~= seq!['/']);
    }
    if !is_valid_snapshot_file_name(snapshot_file_name) {
        return Err(
            CollectionError::bad_input(String::from_str("invalid snapshot file name")),
        );
    }
    let mut s = snapshots_path_for_shard_unchecked(snapshots_path, shard_id);
    s.append("/");
    s.append(snapshot_file_name);
    Ok(s)
}

/// What restoring each shard of a snapshot must do, by the shard's stored
/// kind.
#[derive(Clone, Copy, PartialEq, Eq, Structural, Debug)]
pub enum ShardKind {
    Local,
    Remote,
    Temporary,
    ReplicaSetKind,
}

/// Plan a snapshot restore: every shard id up to the configured count must
/// have a stored shard configuration, and each is restored by its kind's
/// routine. A missing configuration fails the whole restore.
pub fn plan_snapshot_restore(shard_number: u32, shard_configs: &Vec<Option<ShardKind>>) -> (r:
    Result<Vec<(u32, ShardKind)>, CollectionError>)
    requires
        shard_configs@.len() == shard_number,
    ensures
        r is Ok <==> (forall|i: int| 0 <= i < shard_number ==> shard_configs@[i] is Some),
        r is Err ==> r->Err_0 is ServiceError,
        r is Ok ==> r->Ok_0@.len() == shard_number && (forall|i: int|
            0 <= i < shard_number ==> (#[trigger] r->Ok_0@[i]).0 == i && Some(r->Ok_0@[i].1)
                == shard_configs@[i]),
{
    let mut plan: Vec<(u32, ShardKind)> = Vec::new();
    let mut i: u32 = 0;
    while i < shard_number
        invariant
            0 <= i <= shard_number,
            shard_configs@.len() == shard_number,
            plan@.len() == i,
            forall|j: int|
                0 <= j < i ==> (#[trigger] plan@[j]).0 == j && Some(plan@[j].1)
                    == shard_configs@[j],
        decreases shard_number - i,
    {
        match shard_configs[i as usize] {
            Some(kind) => {
                plan.push((i, kind));
            },
            None => {
                return Err(
                    CollectionError::service_error(
                        String::from_str("a shard configuration is missing in the snapshot"),
                    ),
                );
            },
        }
        i = i + 1;
    }
    assert forall|j: int| 0 <= j < shard_number implies shard_configs@[j] is Some by {
        assert(Some(plan@[j].1) == shard_configs@[j]);
    }
    Ok(plan)
}

/// Decide whether a snapshot may be served. `canonical_dir` and
/// `canonical_path` are the canonical forms of the snapshots directory and
/// of `<snapshots dir>/<name>`, or nothing where canonicalization failed;
/// `exists` says whether the file is present. The snapshot is served only
/// when its canonical path lies within the canonical snapshots directory.
pub fn get_snapshot_path(
    snapshots_path: &str,
    name: &str,
    canonical_dir: Option<&str>,
    canonical_path: Option<&str>,
    exists: bool,
) -> (r: Result<String, CollectionError>)
    ensures
        r is Ok <==> (canonical_path is Some && canonical_dir is Some && spec_path_within(
            canonical_dir->Some_0.spec_bytes(),
            canonical_path->Some_0.spec_bytes(),
        ) && exists),
        r is Err ==> r->Err_0 is NotFound,
        r is Ok ==> r->Ok_0@ == snapshots_path@ + seq!['/'] + name@,
{
    proof {
        reveal_strlit("/");
        reveal_strlit("Snapshot ");
        reveal_strlit("snapshot directory");
        assert("/"@ =~= seq!['/']);
    }
    let cp = match canonical_path {
        Some(cp) => cp,
        None => {
            let mut what = String::from_str("Snapshot ");
            what.append(name);
            return Err(CollectionError::NotFound { what });
        },
    };
    let cd = match canonical_dir {
        Some(cd) => cd,
        None => {
            return Err(
                CollectionError::NotFound { what: String::from_str("snapshot directory") },
            );
        },
    };
    if !path_within(cd, cp) {
        let mut what = String::from_str("Snapshot ");
        what.append(name);
        return Err(CollectionError::NotFound { what });
    }
    if !exists {
        let mut what = String::from_str("Snapshot ");
        what.append(name);
        return Err(CollectionError::NotFound { what });
    }
    let mut full = String::from_str(snapshots_path);
    full.append("/");
    full.append(name);
    Ok(full)
}

/// A canonical path that escapes the snapshots directory is never served:
/// any result that meets [`get_snapshot_path`]'s contract on an escaping
/// path is `NotFound`, whatever the other inputs were.
pub proof fn lemma_snapshot_path_escape_rejected(
    dir: Seq<u8>,
    cand: Seq<u8>,
    r: Result<String, CollectionError>,
)
    requires
        !spec_path_within(dir, cand),
        r is Ok ==> spec_path_within(dir, cand),
        r is Err ==> r->Err_0 is NotFound,
    ensures
        r is Err && r->Err_0 is NotFound,
{
}

} // verus!
