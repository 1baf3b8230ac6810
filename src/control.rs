use crate::ipc::{
    has_id, index_of_id, key_taken_by_other, lookup_id, registry_wf, updated, deleted, inserted,
    has_key, Ipc, IpcService, IpcView, StorageError,
};
use crate::my_actor::Intent;
use crate::result::Error;
use vstd::prelude::*;

verus! {

/// The page a listing shows when the request names none.
pub const DEFAULT_PAGE: u32 = 1;

/// The page size of a listing when the request names none.
pub const DEFAULT_ROWS: u32 = 10;

/// The page and page size of a listing request, with the defaults filled in.
pub fn paging_or_default(page: Option<u32>, rows: Option<u32>) -> (r: (u32, u32))
    ensures
        r.0 == match page {
            Some(p) => p,
            None => DEFAULT_PAGE,
        },
        r.1 == match rows {
            Some(n) => n,
            None => DEFAULT_ROWS,
        },
{
    let p = match page {
        Some(p) => p,
        None => DEFAULT_PAGE,
    };
    let n = match rows {
        Some(n) => n,
        None => DEFAULT_ROWS,
    };
    (p, n)
}

/// Why the control plane refused a request.
pub enum ControlError {
    /// A required parameter is missing.
    InvalidParameter,
    /// No record has the identity.
    DataNotFound,
    /// The stream is wanted running already (or must not be running).
    AlreadyPushing,
    /// The stream is wanted stopped already.
    NotPushing,
    /// The registry refused the change.
    Storage(StorageError),
}

impl ControlError {
    /// The business error that the control surface reports.
    pub fn error(&self) -> (r: Error)
        ensures
            self is InvalidParameter ==> r.code == 10001 && r.message@ == "Invalid parameter"@,
            self is DataNotFound ==> r.code == 10002 && r.message@ == "Data not found"@,
            self is AlreadyPushing ==> r.code == 10003 && r.message@ == "Already pushing"@,
            self is NotPushing ==> r.code == 10004 && r.message@ == "Not pushing"@,
            self is Storage ==> r.code == 60001 && r.message@ == "Database operational error"@,
    {
        match self {
            ControlError::InvalidParameter => Error::invalid_parameter(),
            ControlError::DataNotFound => Error::data_not_found(),
            ControlError::AlreadyPushing => Error::already_pushing(),
            ControlError::NotPushing => Error::not_pushing(),
            ControlError::Storage(_) => Error::db_operation_error(),
        }
    }
}

/// A record about to be started: wanted running, failure cleared, stamped.
pub open spec fn started(x: IpcView, now: i64) -> IpcView {
    IpcView { enable: 1, reason: None, update_time: Some(now), ..x }
}

/// A record about to be stopped: wanted stopped, retry history cleared, stamped.
pub open spec fn stopped(x: IpcView, now: i64) -> IpcView {
    IpcView { enable: 0, retry_count: 0, reason: None, update_time: Some(now), ..x }
}

/// A record with new configuration, stamped.
pub open spec fn reconfigured(
    x: IpcView,
    key: Seq<char>,
    name: Seq<char>,
    rtsp: Seq<char>,
    rtmp: Seq<char>,
    now: i64,
) -> IpcView {
    IpcView { key, name, rtsp, rtmp, update_time: Some(now), ..x }
}

/// A new record as the control plane creates it: wanted stopped, no
/// failure, no retries, created at `now`.
pub open spec fn fresh(
    key: Seq<char>,
    name: Seq<char>,
    rtsp: Seq<char>,
    rtmp: Seq<char>,
    now: i64,
) -> IpcView {
    IpcView {
        id: 0,
        key,
        name,
        rtsp,
        rtmp,
        enable: 0,
        reason: None,
        retry_count: 0,
        create_time: now,
        update_time: None,
    }
}

proof fn lemma_own_key(v: crate::ipc::RegistryView, id: i32, key: Seq<char>)
    requires
        registry_wf(v),
        has_id(v.rows, id),
        lookup_id(v.rows, id)->0.key == key,
    ensures
        !key_taken_by_other(v.rows, id, key),
{
    let k = index_of_id(v.rows, id);
    assert forall|i: int| 0 <= i < v.rows.len() && #[trigger] v.rows[i].key == key implies v.rows[i].id
        == id by {
        if i < k {
            assert(v.rows[i].key != v.rows[k].key);
        } else if k < i {
            assert(v.rows[k].key != v.rows[i].key);
        }
    }
}

/// Creates a stream record, wanted stopped.
pub fn insert_stream(
    registry: &mut IpcService,
    key: String,
    name: String,
    rtsp: String,
    rtmp: String,
    now: i64,
) -> (r: Result<usize, ControlError>)
    requires
        registry_wf(old(registry)@),
    ensures
        registry_wf(final(registry)@),
        has_key(old(registry)@.rows, key@) ==> (r matches Err(
            ControlError::Storage(StorageError::DuplicateKey),
        )) && final(registry)@ == old(registry)@,
        !has_key(old(registry)@.rows, key@) && old(registry)@.next_id == i32::MAX ==> (r matches Err(
            ControlError::Storage(StorageError::IdsExhausted),
        )) && final(registry)@ == old(registry)@,
        !has_key(old(registry)@.rows, key@) && old(registry)@.next_id < i32::MAX ==> (r matches Ok(1))
            && final(registry)@ == inserted(old(registry)@, fresh(key@, name@, rtsp@, rtmp@, now)),
{
    let ipc = Ipc::new(0, key, name, rtsp, rtmp, 0, None, 0, now, None);
    match registry.insert(ipc) {
        Ok(n) => Ok(n),
        Err(e) => Err(ControlError::Storage(e)),
    }
}

/// Asks for a stream to run. Refused where the record is missing or already
/// wanted running; otherwise the record is marked wanted running with its
/// failure cleared, and the start intent is returned for the supervisor.
pub fn request_start(registry: &mut IpcService, id: i32, now: i64) -> (r: Result<Intent, ControlError>)
    requires
        registry_wf(old(registry)@),
    ensures
        registry_wf(final(registry)@),
        !has_id(old(registry)@.rows, id) ==> (r matches Err(ControlError::DataNotFound)) && final(registry)@ == old(registry)@,
        has_id(old(registry)@.rows, id) && lookup_id(old(registry)@.rows, id)->0.enable == 1 ==> (r matches Err(
            ControlError::AlreadyPushing,
        )) && final(registry)@ == old(registry)@,
        has_id(old(registry)@.rows, id) && lookup_id(old(registry)@.rows, id)->0.enable != 1 ==> r
            == Ok::<Intent, ControlError>(Intent { id, desired: 1 }) && final(registry)@ == updated(
            old(registry)@,
            started(lookup_id(old(registry)@.rows, id)->0, now),
        ),
{
    let mut ipc = match registry.get(id) {
        None => {
            return Err(ControlError::DataNotFound);
        },
        Some(ipc) => ipc,
    };
    if ipc.enable == 1 {
        return Err(ControlError::AlreadyPushing);
    }
    ipc.enable = 1;
    ipc.reason = None;
    ipc.update_time = Some(now);
    proof {
        lemma_own_key(registry@, id, ipc.key@);
    }
    match registry.update(ipc) {
        Ok(_) => Ok(Intent { id, desired: 1 }),
        Err(e) => Err(ControlError::Storage(e)),
    }
}

/// Asks for a stream to stop. Refused where the record is missing or already
/// wanted stopped; otherwise the record is marked wanted stopped with its
/// retry history cleared, and the stop intent is returned for the supervisor.
pub fn request_stop(registry: &mut IpcService, id: i32, now: i64) -> (r: Result<Intent, ControlError>)
    requires
        registry_wf(old(registry)@),
    ensures
        registry_wf(final(registry)@),
        !has_id(old(registry)@.rows, id) ==> (r matches Err(ControlError::DataNotFound)) && final(registry)@ == old(registry)@,
        has_id(old(registry)@.rows, id) && lookup_id(old(registry)@.rows, id)->0.enable == 0 ==> (r matches Err(
            ControlError::NotPushing,
        )) && final(registry)@ == old(registry)@,
        has_id(old(registry)@.rows, id) && lookup_id(old(registry)@.rows, id)->0.enable != 0 ==> r
            == Ok::<Intent, ControlError>(Intent { id, desired: 0 }) && final(registry)@ == updated(
            old(registry)@,
            stopped(lookup_id(old(registry)@.rows, id)->0, now),
        ),
{
    let mut ipc = match registry.get(id) {
        None => {
            return Err(ControlError::DataNotFound);
        },
        Some(ipc) => ipc,
    };
    if ipc.enable == 0 {
        return Err(ControlError::NotPushing);
    }
    ipc.enable = 0;
    ipc.retry_count = 0;
    ipc.reason = None;
    ipc.update_time = Some(now);
    proof {
        lemma_own_key(registry@, id, ipc.key@);
    }
    match registry.update(ipc) {
        Ok(_) => Ok(Intent { id, desired: 0 }),
        Err(e) => Err(ControlError::Storage(e)),
    }
}

/// Changes a stream's configuration. Refused without an identity, where the
/// record is missing, where the stream is wanted running, or where another
/// record has the new key.
pub fn update_stream(
    registry: &mut IpcService,
    id: Option<i32>,
    key: String,
    name: String,
    rtsp: String,
    rtmp: String,
    now: i64,
) -> (r: Result<usize, ControlError>)
    requires
        registry_wf(old(registry)@),
    ensures
        registry_wf(final(registry)@),
        id is None ==> (r matches Err(ControlError::InvalidParameter)) && final(registry)@ == old(registry)@,
        id is Some && !has_id(old(registry)@.rows, id->0) ==> (r matches Err(
            ControlError::DataNotFound,
        )) && final(registry)@ == old(registry)@,
        id is Some && has_id(old(registry)@.rows, id->0) && lookup_id(old(registry)@.rows, id->0)->0.enable
            == 1 ==> (r matches Err(ControlError::AlreadyPushing)) && final(registry)@ == old(registry)@,
        id is Some && has_id(old(registry)@.rows, id->0) && lookup_id(old(registry)@.rows, id->0)->0.enable
            != 1 && key_taken_by_other(old(registry)@.rows, id->0, key@) ==> (r matches Err(
            ControlError::Storage(StorageError::DuplicateKey),
        )) && final(registry)@ == old(registry)@,
        id is Some && has_id(old(registry)@.rows, id->0) && lookup_id(old(registry)@.rows, id->0)->0.enable
            != 1 && !key_taken_by_other(old(registry)@.rows, id->0, key@) ==> (r matches Ok(1)) && final(registry)@ == updated(
            old(registry)@,
            reconfigured(lookup_id(old(registry)@.rows, id->0)->0, key@, name@, rtsp@, rtmp@, now),
        ),
{
    let id = match id {
        None => {
            return Err(ControlError::InvalidParameter);
        },
        Some(id) => id,
    };
    let mut ipc = match registry.get(id) {
        None => {
            return Err(ControlError::DataNotFound);
        },
        Some(ipc) => ipc,
    };
    if ipc.enable == 1 {
        return Err(ControlError::AlreadyPushing);
    }
    ipc.key = key;
    ipc.name = name;
    ipc.rtsp = rtsp;
    ipc.rtmp = rtmp;
    ipc.update_time = Some(now);
    match registry.update(ipc) {
        Ok(n) => Ok(n),
        Err(e) => Err(ControlError::Storage(e)),
    }
}

/// Deletes a stream record. Refused where it is missing or wanted running.
pub fn delete_stream(registry: &mut IpcService, id: i32) -> (r: Result<usize, ControlError>)
    requires
        registry_wf(old(registry)@),
    ensures
        registry_wf(final(registry)@),
        !has_id(old(registry)@.rows, id) ==> (r matches Err(ControlError::DataNotFound)) && final(registry)@ == old(registry)@,
        has_id(old(registry)@.rows, id) && lookup_id(old(registry)@.rows, id)->0.enable == 1 ==> (r matches Err(
            ControlError::AlreadyPushing,
        )) && final(registry)@ == old(registry)@,
        has_id(old(registry)@.rows, id) && lookup_id(old(registry)@.rows, id)->0.enable != 1 ==> (r matches Ok(1)) && final(registry)@ == deleted(old(registry)@, id),
{
    let ipc = match registry.get(id) {
        None => {
            return Err(ControlError::DataNotFound);
        },
        Some(ipc) => ipc,
    };
    if ipc.enable == 1 {
        return Err(ControlError::AlreadyPushing);
    }
    Ok(registry.delete(id))
}

/// The character of a hexadecimal digit, upper case.
pub open spec fn hex_char(d: int) -> char {
    if d < 10 {
        ((48 + d) as u8) as char
    } else {
        ((55 + d) as u8) as char
    }
}

/// The upper-case hexadecimal digits of `n`, without leading zeros.
pub open spec fn hex_upper(n: nat) -> Seq<char>
    decreases n,
{
    if n < 16 {
        seq![hex_char(n as int)]
    } else {
        hex_upper(n / 16).push(hex_char((n % 16) as int))
    }
}

/// `'0'` repeated `n` times.
pub open spec fn zeros(n: int) -> Seq<char> {
    Seq::new(if n > 0 { n as nat } else { 0 }, |i: int| '0')
}

/// The key that follows `count` records: `D`, then `count + 1` in upper-case
/// hexadecimal, zero-padded to four digits.
pub open spec fn next_key(count: nat) -> Seq<char> {
    seq!['D'] + zeros(4 - hex_upper(count + 1).len()) + hex_upper(count + 1)
}

fn hex_digit_str(d: u8) -> (r: &'static str)
    requires
        d < 16,
    ensures
        r@ == seq![hex_char(d as int)],
{
    proof {
        reveal_strlit("0");
        reveal_strlit("1");
        reveal_strlit("2");
        reveal_strlit("3");
        reveal_strlit("4");
        reveal_strlit("5");
        reveal_strlit("6");
        reveal_strlit("7");
        reveal_strlit("8");
        reveal_strlit("9");
        reveal_strlit("A");
        reveal_strlit("B");
        reveal_strlit("C");
        reveal_strlit("D");
        reveal_strlit("E");
        reveal_strlit("F");
    }
    let r = match d {
        0 => "0",
        1 => "1",
        2 => "2",
        3 => "3",
        4 => "4",
        5 => "5",
        6 => "6",
        7 => "7",
        8 => "8",
        9 => "9",
        10 => "A",
        11 => "B",
        12 => "C",
        13 => "D",
        14 => "E",
        _ => "F",
    };
    assert(r@ =~= seq![hex_char(d as int)]);
    r
}

fn append_hex(out: &mut String, n: u128)
    ensures
        final(out)@ == old(out)@ + hex_upper(n as nat),
    decreases n,
{
    if n >= 16 {
        append_hex(out, n / 16);
    }
    out.append(hex_digit_str((n % 16) as u8));
    proof {
        if n >= 16 {
            assert(old(out)@ + hex_upper((n / 16) as nat) + seq![hex_char((n % 16) as int)]
                =~= old(out)@ + hex_upper(n as nat));
        } else {
            assert(n % 16 == n);
        }
    }
}

/// The key proposed for the next stream: `D` followed by `count + 1` in
/// upper-case hexadecimal, zero-padded to four digits.
pub fn generate_next_key(count: u64) -> (r: String)
    ensures
        r@ == next_key(count as nat),
{
    let mut digits = String::new();
    append_hex(&mut digits, count as u128 + 1);
    let n = digits.as_str().unicode_len();
    proof {
        reveal_strlit("D");
        reveal_strlit("0");
    }
    let mut r = String::from_str("D");
    assert("D"@ =~= seq!['D']);
    let mut i: usize = n;
    while i < 4
        invariant
            n == hex_upper((count + 1) as nat).len(),
            n <= i <= 4 || (n > 4 && i == n),
            r@ == seq!['D'] + zeros(i - n),
        decreases 4 - i,
    {
        r.append("0");
        proof {
            reveal_strlit("0");
            assert("0"@ =~= seq!['0']);
        }
        assert(seq!['D'] + zeros(i - n) + "0"@ =~= seq!['D'] + zeros(i + 1 - n));
        i = i + 1;
    }
    r.append(digits.as_str());
    assert(zeros(i - n) =~= zeros(4 - n));
    r
}

} // verus!
