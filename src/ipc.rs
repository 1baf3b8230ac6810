use vstd::prelude::*;

verus! {

/// The most records that `get_enable_list` and `get_list_by_reason` return.
pub const MAX_ROWS: usize = 64;

/// A stream record: configuration, desired state and runtime status.
pub struct Ipc {
    pub id: i32,
    pub key: String,
    pub name: String,
    /// The RTSP source URL.
    pub rtsp: String,
    /// The RTMP destination URL.
    pub rtmp: String,
    /// Desired state: 0 = should be stopped, 1 = should be running.
    pub enable: i32,
    /// The last failure; `None` where no abnormal termination is outstanding.
    pub reason: Option<String>,
    pub retry_count: i32,
    pub create_time: i64,
    pub update_time: Option<i64>,
}

/// The mathematical value of a stream record.
pub struct IpcView {
    pub id: i32,
    pub key: Seq<char>,
    pub name: Seq<char>,
    pub rtsp: Seq<char>,
    pub rtmp: Seq<char>,
    pub enable: i32,
    pub reason: Option<Seq<char>>,
    pub retry_count: i32,
    pub create_time: i64,
    pub update_time: Option<i64>,
}

pub open spec fn opt_str_view(s: Option<String>) -> Option<Seq<char>> {
    match s {
        Some(t) => Some(t@),
        None => None,
    }
}

impl View for Ipc {
    type V = IpcView;

    open spec fn view(&self) -> IpcView {
        IpcView {
            id: self.id,
            key: self.key@,
            name: self.name@,
            rtsp: self.rtsp@,
            rtmp: self.rtmp@,
            enable: self.enable,
            reason: opt_str_view(self.reason),
            retry_count: self.retry_count,
            create_time: self.create_time,
            update_time: self.update_time,
        }
    }
}

/// The values of a sequence of records.
pub open spec fn views(s: Seq<Ipc>) -> Seq<IpcView> {
    s.map_values(|r: Ipc| r@)
}

pub fn copy_opt_string(s: &Option<String>) -> (r: Option<String>)
    ensures
        opt_str_view(r) == opt_str_view(*s),
{
    match s {
        Some(t) => Some(t.clone()),
        None => None,
    }
}

impl Ipc {
    pub fn new(
        id: i32,
        key: String,
        name: String,
        rtsp: String,
        rtmp: String,
        enable: i32,
        reason: Option<String>,
        retry_count: i32,
        create_time: i64,
        update_time: Option<i64>,
    ) -> (r: Self)
        ensures
            r.id == id && r.key == key && r.name == name && r.rtsp == rtsp && r.rtmp == rtmp,
            r.enable == enable && r.reason == reason && r.retry_count == retry_count,
            r.create_time == create_time && r.update_time == update_time,
    {
        Ipc {
            id,
            key,
            name,
            rtsp,
            rtmp,
            enable,
            reason,
            retry_count,
            create_time,
            update_time,
        }
    }

    /// A copy of the record, equal to it in value.
    pub fn duplicate(&self) -> (r: Ipc)
        ensures
            r@ == self@,
    {
        Ipc {
            id: self.id,
            key: self.key.clone(),
            name: self.name.clone(),
            rtsp: self.rtsp.clone(),
            rtmp: self.rtmp.clone(),
            enable: self.enable,
            reason: copy_opt_string(&self.reason),
            retry_count: self.retry_count,
            create_time: self.create_time,
            update_time: self.update_time,
        }
    }
}

/// `k` occurs in `s` as a contiguous substring.
pub open spec fn contains(s: Seq<char>, k: Seq<char>) -> bool {
    exists|i: int| 0 <= i && i + k.len() <= s.len() && #[trigger] s.subrange(i, i + k.len()) == k
}

/// Whether `k` occurs in `s` as a contiguous substring.
pub fn str_contains(s: &str, k: &str) -> (r: bool)
    ensures
        r == contains(s@, k@),
{
    let n = s.unicode_len();
    let m = k.unicode_len();
    if m > n {
        assert forall|i: int| 0 <= i && i + k@.len() <= s@.len() implies #[trigger] s@.subrange(
            i,
            i + k@.len(),
        ) != k@ by {}
        return false;
    }
    if m == 0 {
        assert(s@.subrange(0, 0 + k@.len() as int) =~= k@);
        return true;
    }
    let mut i: usize = 0;
    while i <= n - m
        invariant
            n == s@.len(),
            m == k@.len(),
            1 <= m <= n,
            i <= n - m + 1,
            forall|p: int| 0 <= p < i ==> #[trigger] s@.subrange(p, p + m) != k@,
        decreases n - m + 1 - i,
    {
        let mut j: usize = 0;
        let mut same = true;
        while j < m
            invariant
                n == s@.len(),
                m == k@.len(),
                i + m <= n,
                j <= m,
                same ==> forall|q: int| 0 <= q < j ==> s@[i + q] == k@[q],
                !same ==> s@.subrange(i as int, i + m) != k@,
            decreases m - j,
        {
            if s.get_char(i + j) != k.get_char(j) {
                assert(s@.subrange(i as int, i + m)[j as int] != k@[j as int]);
                same = false;
            }
            j = j + 1;
        }
        if same {
            assert(s@.subrange(i as int, i + m) =~= k@);
            return true;
        }
        i = i + 1;
    }
    assert forall|p: int| 0 <= p && p + k@.len() <= s@.len() implies #[trigger] s@.subrange(
        p,
        p + k@.len(),
    ) != k@ by {}
    false
}

/// Which records a listing or a count takes.
pub enum Selection {
    /// Every record.
    All,
    /// Records whose key, name, input URL or output URL contains the text.
    Keyword(String),
    /// Records wanted running.
    Enabled,
    /// Records stopped with a failure whose retry count is under the bound.
    Abnormal(u32),
    /// Records stopped with a failure.
    WithReason,
}

pub open spec fn selects(sel: Selection, r: IpcView) -> bool {
    match sel {
        Selection::All => true,
        Selection::Keyword(k) => contains(r.key, k@) || contains(r.name, k@) || contains(
            r.rtsp,
            k@,
        ) || contains(r.rtmp, k@),
        Selection::Enabled => r.enable == 1,
        Selection::Abnormal(max_retry) => r.enable == 0 && r.reason is Some && r.retry_count
            < max_retry,
        Selection::WithReason => r.enable == 0 && r.reason is Some,
    }
}

/// The records that `sel` takes, in order.
pub open spec fn selected(rows: Seq<IpcView>, sel: Selection) -> Seq<IpcView> {
    rows.filter(|r: IpcView| selects(sel, r))
}

/// The window `[skip, skip + take)` of `s`, cut at its end.
pub open spec fn window(s: Seq<IpcView>, skip: int, take: int) -> Seq<IpcView> {
    let lo = if skip < s.len() {
        skip
    } else {
        s.len() as int
    };
    let hi = if skip + take < s.len() {
        skip + take
    } else {
        s.len() as int
    };
    s.subrange(lo, hi)
}

pub fn selection_holds(sel: &Selection, r: &Ipc) -> (b: bool)
    ensures
        b == selects(*sel, r@),
{
    match sel {
        Selection::All => true,
        Selection::Keyword(k) => str_contains(r.key.as_str(), k.as_str()) || str_contains(
            r.name.as_str(),
            k.as_str(),
        ) || str_contains(r.rtsp.as_str(), k.as_str()) || str_contains(
            r.rtmp.as_str(),
            k.as_str(),
        ),
        Selection::Enabled => r.enable == 1,
        Selection::Abnormal(max_retry) => r.enable == 0 && r.reason.is_some() && (r.retry_count
            as i64) < (*max_retry as i64),
        Selection::WithReason => r.enable == 0 && r.reason.is_some(),
    }
}

proof fn lemma_selected_push(rows: Seq<IpcView>, x: IpcView, sel: Selection)
    ensures
        selected(rows.push(x), sel) == if selects(sel, x) {
            selected(rows, sel).push(x)
        } else {
            selected(rows, sel)
        },
{
    let p = |r: IpcView| selects(sel, r);
    reveal(Seq::filter);
    assert(rows.push(x).drop_last() =~= rows);
    assert(rows.push(x).last() == x);
    assert(rows.push(x).filter(p) == if p(x) {
        rows.filter(p).push(x)
    } else {
        rows.filter(p)
    });
}

/// Copies of the records of `rows` that `sel` takes, the window
/// `[skip, skip + take)` of them.
pub fn select_window(rows: &Vec<Ipc>, sel: &Selection, skip: u64, take: u64) -> (r: Vec<Ipc>)
    ensures
        views(r@) == window(selected(views(rows@), *sel), skip as int, take as int),
{
    let mut out: Vec<Ipc> = Vec::new();
    let mut seen: usize = 0;
    let mut i: usize = 0;
    while i < rows.len()
        invariant
            i <= rows.len(),
            seen as int == selected(views(rows@).take(i as int), *sel).len(),
            seen <= i,
            views(out@) == window(
                selected(views(rows@).take(i as int), *sel),
                skip as int,
                take as int,
            ),
        decreases rows.len() - i,
    {
        let ghost before = selected(views(rows@).take(i as int), *sel);
        proof {
            assert(views(rows@).take(i + 1) =~= views(rows@).take(i as int).push(rows[i as int]@));
            lemma_selected_push(views(rows@).take(i as int), rows[i as int]@, *sel);
        }
        if selection_holds(sel, &rows[i]) {
            let ghost after = before.push(rows[i as int]@);
            if seen as u64 >= skip && seen as u64 - skip < take {
                let c = rows[i].duplicate();
                let ghost prev = out@;
                out.push(c);
                assert(views(out@) =~= views(prev).push(c@));
                assert(window(after, skip as int, take as int) =~= window(
                    before,
                    skip as int,
                    take as int,
                ).push(rows[i as int]@));
            } else {
                assert(window(after, skip as int, take as int) =~= window(
                    before,
                    skip as int,
                    take as int,
                ));
            }
            seen = seen + 1;
        }
        i = i + 1;
    }
    assert(views(rows@).take(rows.len() as int) =~= views(rows@));
    out
}

/// The number of records of `rows` that `sel` takes.
pub fn count_selected(rows: &Vec<Ipc>, sel: &Selection) -> (r: usize)
    ensures
        r as int == selected(views(rows@), *sel).len(),
{
    let mut seen: usize = 0;
    let mut i: usize = 0;
    while i < rows.len()
        invariant
            i <= rows.len(),
            seen as int == selected(views(rows@).take(i as int), *sel).len(),
            seen <= i,
        decreases rows.len() - i,
    {
        proof {
            assert(views(rows@).take(i + 1) =~= views(rows@).take(i as int).push(rows[i as int]@));
            lemma_selected_push(views(rows@).take(i as int), rows[i as int]@, *sel);
        }
        if selection_holds(sel, &rows[i]) {
            seen = seen + 1;
        }
        i = i + 1;
    }
    assert(views(rows@).take(rows.len() as int) =~= views(rows@));
    seen
}

/// A failure of the registry.
pub enum StorageError {
    /// Another record already has the key.
    DuplicateKey,
    /// No identity is left to assign.
    IdsExhausted,
    /// The durable store failed; the text says how.
    Backend(String),
}

/// The value of the registry: its records in order of identity, and the
/// identity that the next insert assigns.
pub struct RegistryView {
    pub rows: Seq<IpcView>,
    pub next_id: int,
}

/// Identities are positive, below the next one to assign, and increasing;
/// keys are unique.
pub open spec fn rows_ordered(rows: Seq<IpcView>, next_id: int) -> bool {
    &&& 1 <= next_id <= i32::MAX
    &&& forall|i: int| 0 <= i < rows.len() ==> 0 < #[trigger] rows[i].id < next_id
    &&& forall|i: int, j: int| 0 <= i < j < rows.len() ==> #[trigger] rows[i].id < #[trigger] rows[j].id
    &&& forall|i: int, j: int|
        0 <= i < j < rows.len() ==> #[trigger] rows[i].key != #[trigger] rows[j].key
}

pub open spec fn registry_wf(v: RegistryView) -> bool {
    rows_ordered(v.rows, v.next_id)
}

pub open spec fn has_id(rows: Seq<IpcView>, id: i32) -> bool {
    exists|i: int| 0 <= i < rows.len() && #[trigger] rows[i].id == id
}

pub open spec fn index_of_id(rows: Seq<IpcView>, id: i32) -> int {
    choose|i: int| 0 <= i < rows.len() && #[trigger] rows[i].id == id
}

/// The record with identity `id`, if any.
pub open spec fn lookup_id(rows: Seq<IpcView>, id: i32) -> Option<IpcView> {
    if has_id(rows, id) {
        Some(rows[index_of_id(rows, id)])
    } else {
        None
    }
}

pub open spec fn has_key(rows: Seq<IpcView>, key: Seq<char>) -> bool {
    exists|i: int| 0 <= i < rows.len() && #[trigger] rows[i].key == key
}

/// The record with key `key`, if any.
pub open spec fn lookup_key(rows: Seq<IpcView>, key: Seq<char>) -> Option<IpcView> {
    if has_key(rows, key) {
        Some(rows[choose|i: int| 0 <= i < rows.len() && #[trigger] rows[i].key == key])
    } else {
        None
    }
}

/// A record of another identity holds `key`.
pub open spec fn key_taken_by_other(rows: Seq<IpcView>, id: i32, key: Seq<char>) -> bool {
    exists|i: int| 0 <= i < rows.len() && #[trigger] rows[i].key == key && rows[i].id != id
}

pub open spec fn with_id(r: IpcView, id: i32) -> IpcView {
    IpcView { id, ..r }
}

/// The registry after inserting `r`: it is appended under the next identity.
pub open spec fn inserted(v: RegistryView, r: IpcView) -> RegistryView {
    RegistryView { rows: v.rows.push(with_id(r, v.next_id as i32)), next_id: v.next_id + 1 }
}

/// A stored record overwritten by `r`: all but the identity and the creation
/// time come from `r`.
pub open spec fn replaced(x: IpcView, r: IpcView) -> IpcView {
    IpcView { id: x.id, create_time: x.create_time, ..r }
}

/// The registry after updating with `r`.
pub open spec fn updated(v: RegistryView, r: IpcView) -> RegistryView {
    RegistryView {
        rows: v.rows.map_values(|x: IpcView| if x.id == r.id { replaced(x, r) } else { x }),
        next_id: v.next_id,
    }
}

/// The registry without the record of identity `id`.
pub open spec fn deleted(v: RegistryView, id: i32) -> RegistryView {
    RegistryView { rows: v.rows.remove(index_of_id(v.rows, id)), next_id: v.next_id }
}

/// The selection that a listing with an optional keyword makes.
pub open spec fn keyword_selection(keyword: Option<String>) -> Selection {
    match keyword {
        Some(k) => Selection::Keyword(k),
        None => Selection::All,
    }
}

/// Page `page` (from 1) of `size` records of those that `sel` takes.
pub open spec fn list_page(rows: Seq<IpcView>, page: int, size: int, sel: Selection) -> Seq<IpcView> {
    if page < 1 {
        Seq::empty()
    } else {
        window(selected(rows, sel), (page - 1) * size, size)
    }
}

pub proof fn lemma_unique_id_index(rows: Seq<IpcView>, next_id: int, id: i32, k: int)
    requires
        rows_ordered(rows, next_id),
        0 <= k < rows.len(),
        rows[k].id == id,
    ensures
        has_id(rows, id),
        index_of_id(rows, id) == k,
        lookup_id(rows, id) == Some(rows[k]),
{
    let j = index_of_id(rows, id);
    if j < k {
        assert(rows[j].id < rows[k].id);
    } else if k < j {
        assert(rows[k].id < rows[j].id);
    }
}

proof fn lemma_unique_key_index(rows: Seq<IpcView>, next_id: int, key: Seq<char>, k: int)
    requires
        rows_ordered(rows, next_id),
        0 <= k < rows.len(),
        rows[k].key == key,
    ensures
        lookup_key(rows, key) == Some(rows[k]),
{
    let j = choose|i: int| 0 <= i < rows.len() && #[trigger] rows[i].key == key;
    if j < k {
        assert(rows[j].key != rows[k].key);
    } else if k < j {
        assert(rows[k].key != rows[j].key);
    }
}

/// The stream registry: the records, kept in order of identity with unique
/// keys, and the identity that the next insert assigns.
pub struct IpcService {
    rows: Vec<Ipc>,
    next_id: i32,
}

impl View for IpcService {
    type V = RegistryView;

    closed spec fn view(&self) -> RegistryView {
        RegistryView { rows: views(self.rows@), next_id: self.next_id as int }
    }
}

impl IpcService {
    /// An empty registry whose first insert assigns identity 1.
    pub fn new() -> (r: IpcService)
        ensures
            registry_wf(r@),
            r@.rows.len() == 0,
            r@.next_id == 1,
    {
        let r = IpcService { rows: Vec::new(), next_id: 1 };
        assert(views(r.rows@) =~= Seq::empty());
        r
    }

    fn position_of_id(&self, id: i32) -> (r: Option<usize>)
        ensures
            r matches Some(k) ==> k < self.rows.len() && self.rows[k as int].id == id,
            r is None ==> !has_id(self@.rows, id),
    {
        let mut i: usize = 0;
        while i < self.rows.len()
            invariant
                i <= self.rows.len(),
                forall|j: int| 0 <= j < i ==> self.rows[j].id != id,
            decreases self.rows.len() - i,
        {
            if self.rows[i].id == id {
                return Some(i);
            }
            i = i + 1;
        }
        assert forall|j: int| 0 <= j < self@.rows.len() implies #[trigger] self@.rows[j].id != id by {
            assert(self@.rows[j] == self.rows[j]@);
        }
        None
    }

    fn position_of_key(&self, key: &str, except_id: Option<i32>) -> (r: Option<usize>)
        ensures
            r matches Some(k) ==> k < self.rows.len() && self.rows[k as int].key@ == key@ && (
            except_id matches Some(x) ==> self.rows[k as int].id != x),
            r is None ==> match except_id {
                Some(x) => !key_taken_by_other(self@.rows, x, key@),
                None => !has_key(self@.rows, key@),
            },
    {
        let mut i: usize = 0;
        while i < self.rows.len()
            invariant
                i <= self.rows.len(),
                forall|j: int|
                    0 <= j < i ==> self.rows[j].key@ != key@ || (except_id matches Some(x)
                        && self.rows[j].id == x),
            decreases self.rows.len() - i,
        {
            let skip = match except_id {
                Some(x) => self.rows[i].id == x,
                None => false,
            };
            if !skip && str_eq(self.rows[i].key.as_str(), key) {
                return Some(i);
            }
            i = i + 1;
        }
        assert forall|j: int| 0 <= j < self@.rows.len() implies #[trigger] self@.rows[j]
            == self.rows[j]@ by {}
        None
    }

    /// Inserts a record under the next identity (the record's own `id` is not
    /// used). Fails where another record has its key, or where no identity
    /// is left; returns the number of records inserted.
    pub fn insert(&mut self, ipc: Ipc) -> (r: Result<usize, StorageError>)
        requires
            registry_wf(old(self)@),
        ensures
            registry_wf(final(self)@),
            has_key(old(self)@.rows, ipc.key@) ==> (r matches Err(StorageError::DuplicateKey))
                && final(self)@ == old(self)@,
            !has_key(old(self)@.rows, ipc.key@) && old(self)@.next_id == i32::MAX ==> (r matches Err(
                StorageError::IdsExhausted,
            )) && final(self)@ == old(self)@,
            !has_key(old(self)@.rows, ipc.key@) && old(self)@.next_id < i32::MAX ==> r == Ok::<
                usize,
                StorageError,
            >(1) && final(self)@ == inserted(old(self)@, ipc@),
    {
        if let Some(k) = self.position_of_key(ipc.key.as_str(), None) {
            assert(self@.rows[k as int].key == ipc.key@);
            return Err(StorageError::DuplicateKey);
        }
        if self.next_id == i32::MAX {
            return Err(StorageError::IdsExhausted);
        }
        let ghost before = self@;
        let mut row = ipc;
        row.id = self.next_id;
        self.rows.push(row);
        self.next_id = self.next_id + 1;
        assert(self@.rows =~= inserted(before, ipc@).rows);
        assert forall|i: int, j: int|
            0 <= i < j < self@.rows.len() implies #[trigger] self@.rows[i].key
            != #[trigger] self@.rows[j].key by {
            if j == self@.rows.len() - 1 {
                assert(before.rows[i].key == self@.rows[i].key);
                assert(before.rows[i].key != ipc@.key);
            }
        }
        Ok(1)
    }

    /// Overwrites the record with the identity of `ipc` (all fields but its
    /// identity and creation time). Returns the number of records updated:
    /// 0 where no record has that identity. Fails where a record of another
    /// identity has the new key.
    pub fn update(&mut self, ipc: Ipc) -> (r: Result<usize, StorageError>)
        requires
            registry_wf(old(self)@),
        ensures
            registry_wf(final(self)@),
            !has_id(old(self)@.rows, ipc.id) ==> r == Ok::<usize, StorageError>(0)
                && final(self)@ == old(self)@,
            has_id(old(self)@.rows, ipc.id) && key_taken_by_other(old(self)@.rows, ipc.id, ipc.key@)
                ==> (r matches Err(StorageError::DuplicateKey)) && final(self)@ == old(self)@,
            has_id(old(self)@.rows, ipc.id) && !key_taken_by_other(old(self)@.rows, ipc.id, ipc.key@)
                ==> r == Ok::<usize, StorageError>(1) && final(self)@ == updated(old(self)@, ipc@),
    {
        let pos = self.position_of_id(ipc.id);
        let k = match pos {
            None => {
                return Ok(0);
            },
            Some(k) => k,
        };
        assert(self@.rows[k as int].id == ipc.id);
        if let Some(j) = self.position_of_key(ipc.key.as_str(), Some(ipc.id)) {
            assert(self@.rows[j as int].key == ipc.key@);
            return Err(StorageError::DuplicateKey);
        }
        let ghost before = self@;
        let mut row = ipc;
        row.id = self.rows[k].id;
        row.create_time = self.rows[k].create_time;
        assert(row@ == replaced(before.rows[k as int], ipc@));
        self.rows.set(k, row);
        proof {
            lemma_unique_id_index(before.rows, before.next_id, ipc.id, k as int);
            assert forall|i: int| 0 <= i < before.rows.len() && i != k implies before.rows[i].id
                != ipc.id by {
                if i < k {
                    assert(before.rows[i].id < before.rows[k as int].id);
                } else {
                    assert(before.rows[k as int].id < before.rows[i].id);
                }
            }
            assert(self@.rows =~= updated(before, ipc@).rows);
            assert forall|i: int, j: int|
                0 <= i < j < self@.rows.len() implies #[trigger] self@.rows[i].key
                != #[trigger] self@.rows[j].key by {
                if i == k {
                    assert(!(before.rows[j].key == ipc@.key && before.rows[j].id != ipc.id));
                } else if j == k {
                    assert(!(before.rows[i].key == ipc@.key && before.rows[i].id != ipc.id));
                }
            }
        }
        Ok(1)
    }

    /// Removes the record with identity `id`; returns the number removed.
    pub fn delete(&mut self, id: i32) -> (r: usize)
        requires
            registry_wf(old(self)@),
        ensures
            registry_wf(final(self)@),
            !has_id(old(self)@.rows, id) ==> r == 0 && final(self)@ == old(self)@,
            has_id(old(self)@.rows, id) ==> r == 1 && final(self)@ == deleted(old(self)@, id),
    {
        match self.position_of_id(id) {
            None => 0,
            Some(k) => {
                let ghost before = self@;
                proof {
                    lemma_unique_id_index(before.rows, before.next_id, id, k as int);
                }
                self.rows.remove(k);
                assert(self@.rows =~= before.rows.remove(k as int));
                assert forall|i: int, j: int|
                    0 <= i < j < self@.rows.len() implies #[trigger] self@.rows[i].id
                    < #[trigger] self@.rows[j].id && self@.rows[i].key != self@.rows[j].key by {
                    let bi = if i < k { i } else { i + 1 };
                    let bj = if j < k { j } else { j + 1 };
                    assert(self@.rows[i] == before.rows[bi]);
                    assert(self@.rows[j] == before.rows[bj]);
                    assert(before.rows[bi].id < before.rows[bj].id);
                    assert(before.rows[bi].key != before.rows[bj].key);
                }
                assert forall|i: int| 0 <= i < self@.rows.len() implies 0 < #[trigger] self@.rows[i].id
                    < self@.next_id by {
                    let bi = if i < k { i } else { i + 1 };
                    assert(self@.rows[i] == before.rows[bi]);
                }
                1
            },
        }
    }

    /// The record with identity `id`, if any.
    pub fn get(&self, id: i32) -> (r: Option<Ipc>)
        requires
            registry_wf(self@),
        ensures
            match r {
                Some(x) => lookup_id(self@.rows, id) == Some(x@),
                None => lookup_id(self@.rows, id) is None,
            },
    {
        match self.position_of_id(id) {
            None => None,
            Some(k) => {
                proof {
                    assert(self@.rows[k as int] == self.rows[k as int]@);
                    lemma_unique_id_index(self@.rows, self@.next_id, id, k as int);
                }
                Some(self.rows[k].duplicate())
            },
        }
    }

    /// The record with key `key`, if any.
    pub fn get_by_key(&self, key: &str) -> (r: Option<Ipc>)
        requires
            registry_wf(self@),
        ensures
            match r {
                Some(x) => lookup_key(self@.rows, key@) == Some(x@),
                None => lookup_key(self@.rows, key@) is None,
            },
    {
        match self.position_of_key(key, None) {
            None => None,
            Some(k) => {
                proof {
                    assert(self@.rows[k as int] == self.rows[k as int]@);
                    lemma_unique_key_index(self@.rows, self@.next_id, key@, k as int);
                }
                Some(self.rows[k].duplicate())
            },
        }
    }

    /// Page `page` (from 1) of `rows` records, in order of identity, of the
    /// records whose key, name, input URL or output URL contains `keyword`
    /// (of all records without one). Page 0 is empty.
    pub fn get_list(&self, page: u32, rows: u32, keyword: Option<String>) -> (r: Vec<Ipc>)
        ensures
            views(r@) == list_page(self@.rows, page as int, rows as int, keyword_selection(keyword)),
    {
        let sel = match keyword {
            Some(k) => Selection::Keyword(k),
            None => Selection::All,
        };
        if page == 0 {
            let r: Vec<Ipc> = Vec::new();
            assert(views(r@) =~= Seq::empty());
            return r;
        }
        proof {
            assert((page - 1) * rows <= 0xffff_ffff * 0xffff_ffff) by (nonlinear_arith)
                requires
                    page >= 1,
                    page - 1 <= 0xffff_ffff,
                    rows <= 0xffff_ffff,
            ;
        }
        let skip: u64 = (page - 1) as u64 * rows as u64;
        select_window(&self.rows, &sel, skip, rows as u64)
    }

    /// The records wanted running, in order of identity, at most `MAX_ROWS`.
    pub fn get_enable_list(&self) -> (r: Vec<Ipc>)
        ensures
            views(r@) == window(selected(self@.rows, Selection::Enabled), 0, MAX_ROWS as int),
    {
        select_window(&self.rows, &Selection::Enabled, 0, MAX_ROWS as u64)
    }

    /// The records stopped with a failure and a retry count under
    /// `less_retry_count`, in order of identity, at most `MAX_ROWS`.
    pub fn get_list_by_reason(&self, less_retry_count: u32) -> (r: Vec<Ipc>)
        ensures
            views(r@) == window(
                selected(self@.rows, Selection::Abnormal(less_retry_count)),
                0,
                MAX_ROWS as int,
            ),
    {
        select_window(&self.rows, &Selection::Abnormal(less_retry_count), 0, MAX_ROWS as u64)
    }

    /// The number of records.
    pub fn count(&self) -> (r: u64)
        ensures
            r == self@.rows.len(),
    {
        self.rows.len() as u64
    }

    /// The number of records wanted running.
    pub fn count_enable(&self) -> (r: u64)
        ensures
            r == selected(self@.rows, Selection::Enabled).len(),
    {
        count_selected(&self.rows, &Selection::Enabled) as u64
    }

    /// The number of records stopped with a failure.
    pub fn count_reason(&self) -> (r: u64)
        ensures
            r == selected(self@.rows, Selection::WithReason).len(),
    {
        count_selected(&self.rows, &Selection::WithReason) as u64
    }
}

/// Whether two strings are equal.
pub fn str_eq(a: &str, b: &str) -> (r: bool)
    ensures
        r == (a@ == b@),
{
    let n = a.unicode_len();
    if n != b.unicode_len() {
        return false;
    }
    let mut i: usize = 0;
    while i < n
        invariant
            n == a@.len() == b@.len(),
            i <= n,
            forall|j: int| 0 <= j < i ==> a@[j] == b@[j],
        decreases n - i,
    {
        if a.get_char(i) != b.get_char(i) {
            return false;
        }
        i = i + 1;
    }
    assert(a@ =~= b@);
    true
}

/// The identity that follows the last of `rows` (1 for none).
pub open spec fn next_id_after(rows: Seq<IpcView>) -> int {
    if rows.len() == 0 {
        1
    } else {
        rows.last().id + 1
    }
}

impl IpcService {
    /// A registry holding `rows` as they are, where they are in increasing
    /// order of positive identity, below `i32::MAX`, with unique keys; `None`
    /// otherwise. The next insert assigns the identity after the last one.
    pub fn from_rows(rows: Vec<Ipc>) -> (r: Option<IpcService>)
        ensures
            r is Some <==> rows_ordered(views(rows@), next_id_after(views(rows@))),
            r matches Some(s) ==> s@.rows == views(rows@) && s@.next_id == next_id_after(
                views(rows@),
            ),
    {
        let ghost v = views(rows@);
        let mut i: usize = 0;
        while i < rows.len()
            invariant
                i <= rows.len(),
                v == views(rows@),
                forall|a: int| 0 <= a < i ==> 0 < #[trigger] rows[a].id,
                forall|a: int, b: int| 0 <= a < b < i ==> #[trigger] rows[a].id < #[trigger] rows[b].id,
                forall|a: int, b: int|
                    0 <= a < b < i ==> #[trigger] rows[a].key@ != #[trigger] rows[b].key@,
            decreases rows.len() - i,
        {
            if rows[i].id <= 0 {
                assert(v[i as int].id <= 0);
                return None;
            }
            if i > 0 && rows[i].id <= rows[i - 1].id {
                assert(!(v[i - 1].id < v[i as int].id));
                return None;
            }
            let mut j: usize = 0;
            while j < i
                invariant
                    i < rows.len(),
                    v == views(rows@),
                    j <= i,
                    forall|a: int| 0 <= a < j ==> #[trigger] rows[a].key@ != rows[i as int].key@,
                decreases i - j,
            {
                if str_eq(rows[j].key.as_str(), rows[i].key.as_str()) {
                    assert(v[j as int].key == v[i as int].key);
                    return None;
                }
                j = j + 1;
            }
            proof {
                assert forall|a: int, b: int| 0 <= a < b < i + 1 implies #[trigger] rows[a].id
                    < #[trigger] rows[b].id by {
                    if b == i && a < i - 1 {
                        assert(rows[a].id < rows[i - 1].id);
                    }
                }
            }
            i = i + 1;
        }
        let n = rows.len();
        let next: i32 = if n == 0 {
            1
        } else {
            if rows[n - 1].id == i32::MAX {
                assert(!(v.last().id + 1 <= i32::MAX));
                return None;
            }
            rows[n - 1].id + 1
        };
        proof {
            assert forall|a: int| 0 <= a < v.len() implies 0 < #[trigger] v[a].id < next by {
                if a < n - 1 {
                    assert(rows[a].id < rows[n - 1].id);
                }
            }
            assert forall|a: int, b: int| 0 <= a < b < v.len() implies #[trigger] v[a].id
                < #[trigger] v[b].id by {
                assert(rows[a].id < rows[b].id);
            }
            assert forall|a: int, b: int| 0 <= a < b < v.len() implies #[trigger] v[a].key
                != #[trigger] v[b].key by {
                assert(rows[a].key@ != rows[b].key@);
            }
        }
        Some(IpcService { rows, next_id: next })
    }
}

/// Round trip: a record inserted under the next identity is what a lookup of
/// that identity returns afterwards, with that identity; the registry stays
/// well formed.
pub proof fn lemma_insert_then_get(v: RegistryView, r: IpcView)
    requires
        registry_wf(v),
        !has_key(v.rows, r.key),
        v.next_id < i32::MAX,
    ensures
        registry_wf(inserted(v, r)),
        lookup_id(inserted(v, r).rows, v.next_id as i32) == Some(with_id(r, v.next_id as i32)),
{
    let w = inserted(v, r);
    let n = v.rows.len() as int;
    assert forall|i: int, j: int| 0 <= i < j < w.rows.len() implies #[trigger] w.rows[i].key
        != #[trigger] w.rows[j].key by {
        if j == n {
            assert(w.rows[i] == v.rows[i]);
        } else {
            assert(w.rows[i] == v.rows[i] && w.rows[j] == v.rows[j]);
        }
    }
    assert forall|i: int, j: int| 0 <= i < j < w.rows.len() implies #[trigger] w.rows[i].id
        < #[trigger] w.rows[j].id by {
        if j == n {
            assert(w.rows[i] == v.rows[i]);
        } else {
            assert(w.rows[i] == v.rows[i] && w.rows[j] == v.rows[j]);
        }
    }
    assert forall|i: int| 0 <= i < w.rows.len() implies 0 < #[trigger] w.rows[i].id < w.next_id by {
        if i < n {
            assert(w.rows[i] == v.rows[i]);
        }
    }
    lemma_unique_id_index(w.rows, w.next_id, v.next_id as i32, n);
}

/// Filter correctness: every record on any page of a keyword listing is a
/// stored record whose key, name, input URL or output URL contains the
/// keyword; and a page as large as the registry holds every such record.
pub proof fn lemma_keyword_listing_exact(rows: Seq<IpcView>, k: String, page: int, size: int)
    requires
        size >= 0,
    ensures
        forall|x: IpcView| #[trigger]
            list_page(rows, page, size, Selection::Keyword(k)).contains(x) ==> rows.contains(x)
                && selects(Selection::Keyword(k), x),
        size >= rows.len() ==> forall|x: IpcView|
            rows.contains(x) && selects(Selection::Keyword(k), x) ==> #[trigger] list_page(
                rows,
                1,
                size,
                Selection::Keyword(k),
            ).contains(x),
{
    let sel = Selection::Keyword(k);
    let p = |r: IpcView| selects(sel, r);
    let f = selected(rows, sel);
    assert forall|x: IpcView| #[trigger]
        list_page(rows, page, size, sel).contains(x) implies rows.contains(x) && selects(sel, x) by {
        let l = list_page(rows, page, size, sel);
        let t = choose|t: int| 0 <= t < l.len() && l[t] == x;
        let lo = if (page - 1) * size < f.len() {
            (page - 1) * size
        } else {
            f.len() as int
        };
        assert(f[lo + t] == x);
        assert(f.contains(x));
        rows.lemma_filter_contains_rev(p, x);
        rows.lemma_filter_pred(p, lo + t);
    }
    if size >= rows.len() {
        assert forall|x: IpcView| rows.contains(x) && selects(sel, x) implies #[trigger] list_page(
            rows,
            1,
            size,
            sel,
        ).contains(x) by {
            let t = choose|t: int| 0 <= t < rows.len() && rows[t] == x;
            rows.lemma_filter_contains(p, t);
            rows.lemma_filter_len(p);
            assert(f.len() <= size);
            assert((1 - 1) * size == 0);
            assert(window(f, 0, size) =~= f);
            assert(list_page(rows, 1, size, sel) == window(f, 0, size));
        }
    }
}

/// Pages 1 to `n` of a listing, put end to end.
pub open spec fn pages(rows: Seq<IpcView>, size: int, sel: Selection, n: int) -> Seq<IpcView>
    decreases n,
{
    if n <= 0 {
        Seq::empty()
    } else {
        pages(rows, size, sel, n - 1) + list_page(rows, n, size, sel)
    }
}

/// Pagination: a page holds at most `size` records, and pages 1 to `n` put
/// end to end are the first `n * size` records of the ordered listing, so
/// that enough pages give all of it.
pub proof fn lemma_pages_concatenate(rows: Seq<IpcView>, size: int, sel: Selection, n: int)
    requires
        size >= 0,
        n >= 0,
    ensures
        forall|p: int| #[trigger] list_page(rows, p, size, sel).len() <= size,
        pages(rows, size, sel, n) == selected(rows, sel).take(
            if n * size < selected(rows, sel).len() {
                n * size
            } else {
                selected(rows, sel).len() as int
            },
        ),
        n * size >= selected(rows, sel).len() ==> pages(rows, size, sel, n) == selected(rows, sel),
    decreases n,
{
    let f = selected(rows, sel);
    if n > 0 {
        lemma_pages_concatenate(rows, size, sel, n - 1);
        assert((n - 1) * size + size == n * size) by (nonlinear_arith);
        assert((n - 1) * size >= 0) by (nonlinear_arith)
            requires
                n >= 1,
                size >= 0,
        ;
        let lo = if (n - 1) * size < f.len() {
            (n - 1) * size
        } else {
            f.len() as int
        };
        let hi = if n * size < f.len() {
            n * size
        } else {
            f.len() as int
        };
        assert(f.take(lo) + f.subrange(lo, hi) =~= f.take(hi));
    } else {
        assert(f.take(0) =~= Seq::<IpcView>::empty());
    }
    if n * size >= f.len() {
        assert(f.take(f.len() as int) =~= f);
    }
}

/// Updating with a record whose key no other identity holds keeps the
/// registry well formed.
pub proof fn lemma_updated_keeps_order(v: RegistryView, r: IpcView)
    requires
        registry_wf(v),
        !key_taken_by_other(v.rows, r.id, r.key),
    ensures
        registry_wf(updated(v, r)),
        updated(v, r).rows.len() == v.rows.len(),
        forall|i: int| 0 <= i < v.rows.len() ==> (#[trigger] updated(v, r).rows[i]).id == v.rows[i].id,
{
    let w = updated(v, r);
    assert forall|i: int| 0 <= i < v.rows.len() implies (#[trigger] w.rows[i]).id == v.rows[i].id by {}
    assert forall|i: int, j: int| 0 <= i < j < w.rows.len() implies #[trigger] w.rows[i].key
        != #[trigger] w.rows[j].key by {
        if v.rows[i].id == r.id {
            assert(!(v.rows[j].key == r.key && v.rows[j].id != r.id));
            assert(v.rows[i].id < v.rows[j].id);
        } else if v.rows[j].id == r.id {
            assert(!(v.rows[i].key == r.key && v.rows[i].id != r.id));
        }
    }
    assert forall|i: int, j: int| 0 <= i < j < w.rows.len() implies #[trigger] w.rows[i].id
        < #[trigger] w.rows[j].id by {
        assert(v.rows[i].id < v.rows[j].id);
    }
    assert forall|i: int| 0 <= i < w.rows.len() implies 0 < #[trigger] w.rows[i].id < w.next_id by {
        assert(w.rows[i].id == v.rows[i].id);
    }
}

/// What a sweep of the control loops does to each record it takes.
#[derive(Clone, Copy, PartialEq, Eq, Structural, Debug)]
pub enum Sweep {
    /// Retry-abnormal: count one more retry, want the stream running again,
    /// clear the failure, stamp the time.
    Retry(i64),
    /// Status-check: clear the retry history.
    Clear,
}

/// `n + 1`, held at `i32::MAX`.
pub open spec fn saturating_inc(n: i32) -> i32 {
    if n == i32::MAX {
        n
    } else {
        (n + 1) as i32
    }
}

pub open spec fn swept(x: IpcView, s: Sweep) -> IpcView {
    match s {
        Sweep::Retry(now) => IpcView {
            retry_count: saturating_inc(x.retry_count),
            enable: 1,
            reason: None,
            update_time: Some(now),
            ..x
        },
        Sweep::Clear => IpcView { retry_count: 0, reason: None, ..x },
    }
}

/// Record `i` is among the first `MAX_ROWS` records that `sel` takes.
pub open spec fn sweep_touches(rows: Seq<IpcView>, sel: Selection, i: int) -> bool {
    selects(sel, rows[i]) && selected(rows.take(i), sel).len() < MAX_ROWS
}

/// The records after a sweep over the first `MAX_ROWS` records that `sel` takes.
pub open spec fn swept_rows(rows: Seq<IpcView>, sel: Selection, s: Sweep) -> Seq<IpcView> {
    Seq::new(
        rows.len(),
        |i: int|
            if sweep_touches(rows, sel, i) {
                swept(rows[i], s)
            } else {
                rows[i]
            },
    )
}

impl IpcService {
    /// Applies `s` to the first `MAX_ROWS` records that `sel` takes (the
    /// records that the bounded listing returns) and returns their
    /// identities in order.
    pub fn sweep(&mut self, sel: &Selection, s: Sweep) -> (r: Vec<i32>)
        requires
            registry_wf(old(self)@),
        ensures
            registry_wf(final(self)@),
            final(self)@.rows == swept_rows(old(self)@.rows, *sel, s),
            final(self)@.next_id == old(self)@.next_id,
            r@ == window(selected(old(self)@.rows, *sel), 0, MAX_ROWS as int).map_values(
                |x: IpcView| x.id,
            ),
    {
        let ghost orig = self@.rows;
        let mut ids: Vec<i32> = Vec::new();
        let mut seen: usize = 0;
        let mut i: usize = 0;
        while i < self.rows.len()
            invariant
                orig.len() == self@.rows.len(),
                self.next_id == old(self).next_id,
                orig == old(self)@.rows,
                i <= orig.len(),
                forall|j: int| 0 <= j < i ==> self@.rows[j] == swept_rows(orig, *sel, s)[j],
                forall|j: int| i <= j < orig.len() ==> self@.rows[j] == orig[j],
                seen as int == selected(orig.take(i as int), *sel).len(),
                seen <= i,
                ids@ == window(selected(orig.take(i as int), *sel), 0, MAX_ROWS as int).map_values(
                    |x: IpcView| x.id,
                ),
            decreases orig.len() - i,
        {
            let ghost before = selected(orig.take(i as int), *sel);
            proof {
                assert(orig.take(i + 1) =~= orig.take(i as int).push(orig[i as int]));
                lemma_selected_push(orig.take(i as int), orig[i as int], *sel);
                assert(self@.rows[i as int] == self.rows[i as int]@);
            }
            if selection_holds(sel, &self.rows[i]) {
                let ghost after = before.push(orig[i as int]);
                if seen < MAX_ROWS {
                    let mut row = self.rows[i].duplicate();
                    match s {
                        Sweep::Retry(now) => {
                            row.retry_count = if row.retry_count == i32::MAX {
                                i32::MAX
                            } else {
                                row.retry_count + 1
                            };
                            row.enable = 1;
                            row.reason = None;
                            row.update_time = Some(now);
                        },
                        Sweep::Clear => {
                            row.retry_count = 0;
                            row.reason = None;
                        },
                    }
                    assert(row@ == swept(orig[i as int], s));
                    let id = row.id;
                    let ghost prev_ids = ids@;
                    ids.push(id);
                    self.rows.set(i, row);
                    assert(window(after, 0, MAX_ROWS as int) =~= window(
                        before,
                        0,
                        MAX_ROWS as int,
                    ).push(orig[i as int]));
                    assert(ids@ =~= window(after, 0, MAX_ROWS as int).map_values(
                        |x: IpcView| x.id,
                    ));
                } else {
                    assert(window(after, 0, MAX_ROWS as int) =~= window(
                        before,
                        0,
                        MAX_ROWS as int,
                    ));
                }
                seen = seen + 1;
            }
            proof {
                assert forall|j: int| 0 <= j < i + 1 implies self@.rows[j] == swept_rows(
                    orig,
                    *sel,
                    s,
                )[j] by {
                    if j == i {
                        assert(self@.rows[j] == self.rows[j]@);
                    }
                }
            }
            i = i + 1;
        }
        proof {
            assert(orig.take(orig.len() as int) =~= orig);
            assert(self@.rows =~= swept_rows(orig, *sel, s));
            let w = self@;
            assert forall|a: int| 0 <= a < w.rows.len() implies (#[trigger] w.rows[a]).id == orig[a].id
                && w.rows[a].key == orig[a].key by {}
            assert forall|a: int, b: int| 0 <= a < b < w.rows.len() implies #[trigger] w.rows[a].id
                < #[trigger] w.rows[b].id by {
                assert(orig[a].id < orig[b].id);
            }
            assert forall|a: int, b: int| 0 <= a < b < w.rows.len() implies #[trigger] w.rows[a].key
                != #[trigger] w.rows[b].key by {
                assert(orig[a].key != orig[b].key);
            }
            assert forall|a: int| 0 <= a < w.rows.len() implies 0 < #[trigger] w.rows[a].id
                < w.next_id by {
                assert(w.rows[a].id == orig[a].id);
            }
        }
        ids
    }
}

proof fn lemma_selected_take_mono(rows: Seq<IpcView>, sel: Selection, a: int, b: int)
    requires
        0 <= a <= b <= rows.len(),
    ensures
        selected(rows.take(a), sel).len() <= selected(rows.take(b), sel).len(),
    decreases b - a,
{
    if a < b {
        lemma_selected_take_mono(rows, sel, a, b - 1);
        assert(rows.take(b) =~= rows.take(b - 1).push(rows[b - 1]));
        lemma_selected_push(rows.take(b - 1), rows[b - 1], sel);
    }
}

/// Status-check resets: where at most `MAX_ROWS` records are wanted running,
/// a status-check sweep leaves every record wanted running with a zero retry
/// count and no failure.
pub proof fn lemma_status_check_resets(rows: Seq<IpcView>)
    requires
        selected(rows, Selection::Enabled).len() <= MAX_ROWS,
    ensures
        forall|i: int|
            0 <= i < rows.len() && (#[trigger] swept_rows(rows, Selection::Enabled, Sweep::Clear)[i]).enable
                == 1 ==> swept_rows(rows, Selection::Enabled, Sweep::Clear)[i].retry_count == 0
                && swept_rows(rows, Selection::Enabled, Sweep::Clear)[i].reason is None,
{
    assert forall|i: int|
        0 <= i < rows.len() && (#[trigger] swept_rows(
            rows,
            Selection::Enabled,
            Sweep::Clear,
        )[i]).enable == 1 implies swept_rows(rows, Selection::Enabled, Sweep::Clear)[i].retry_count
        == 0 && swept_rows(rows, Selection::Enabled, Sweep::Clear)[i].reason is None by {
        assert(rows[i].enable == 1);
        assert(rows.take(i + 1) =~= rows.take(i).push(rows[i]));
        lemma_selected_push(rows.take(i), rows[i], Selection::Enabled);
        lemma_selected_take_mono(rows, Selection::Enabled, i + 1, rows.len() as int);
        assert(rows.take(rows.len() as int) =~= rows);
    }
}

/// Retry cap: a record whose retry count has reached `max_retry` is left as
/// it is by the retry sweep, and no identity that the sweep returns is its.
pub proof fn lemma_retry_cap(v: RegistryView, max_retry: u32, i: int, now: i64)
    requires
        registry_wf(v),
        0 <= i < v.rows.len(),
        v.rows[i].retry_count >= max_retry,
    ensures
        swept_rows(v.rows, Selection::Abnormal(max_retry), Sweep::Retry(now))[i] == v.rows[i],
        !window(selected(v.rows, Selection::Abnormal(max_retry)), 0, MAX_ROWS as int).map_values(
            |x: IpcView| x.id,
        ).contains(v.rows[i].id),
{
    let sel = Selection::Abnormal(max_retry);
    let p = |r: IpcView| selects(sel, r);
    let f = selected(v.rows, sel);
    let w = window(f, 0, MAX_ROWS as int);
    let ids = w.map_values(|x: IpcView| x.id);
    if ids.contains(v.rows[i].id) {
        let t = choose|t: int| 0 <= t < ids.len() && ids[t] == v.rows[i].id;
        assert(w[t] == f[t]);
        v.rows.lemma_filter_pred(p, t);
        assert(f.contains(f[t]));
        v.rows.lemma_filter_contains_rev(p, f[t]);
        let a = choose|a: int| 0 <= a < v.rows.len() && v.rows[a] == f[t];
        if a < i {
            assert(v.rows[a].id < v.rows[i].id);
        } else if i < a {
            assert(v.rows[i].id < v.rows[a].id);
        }
    }
}

} // verus!
