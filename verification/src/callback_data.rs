//! Callback payloads attached to inline keyboard buttons.

use vstd::prelude::*;

use crate::datastore::{DataStore, InMemStore};
use crate::message::starts_with;
use crate::numbers::{decimal_digits, decimal_digits_exec, format_padded, int_to_string};
use crate::text::{chars_of, extend_str, string_from_chars};
use crate::words::string_views;

verus! {

/// Callback payload stored for inline keyboard actions.
#[derive(Debug, Clone, PartialEq, Eq, Hash)]
pub struct CallbackData(String);

impl View for CallbackData {
    type V = Seq<char>;

    closed spec fn view(&self) -> Seq<char> {
        self.0@
    }
}

impl CallbackData {
    /// Wraps a payload.
    pub fn new(data: String) -> (r: CallbackData)
        ensures
            r@ == data@,
    {
        CallbackData(data)
    }

    /// The payload.
    pub fn as_str(&self) -> (r: &str)
        ensures
            r@ == self@,
    {
        self.0.as_str()
    }

    /// Consumes the value and returns the payload.
    pub fn into_inner(self) -> (r: String)
        ensures
            r@ == self@,
    {
        self.0
    }

    /// The payload as bytes, for packing into a callback key.
    pub fn encode_callback(&self) -> (r: String)
        ensures
            r@ == self@,
    {
        self.0.clone()
    }
}

impl From<String> for CallbackData {
    fn from(value: String) -> (r: CallbackData) {
        CallbackData(value)
    }
}

impl vstd::std_specs::convert::FromSpecImpl<String> for CallbackData {
    open spec fn obeys_from_spec() -> bool {
        true
    }

    closed spec fn from_spec(v: String) -> CallbackData {
        CallbackData(v)
    }
}

/// What a button press hands back: the stored payload for a known key,
/// otherwise the raw callback text itself.
pub fn unpack_callback_data(stored: Option<CallbackData>, callback_data: &str) -> (r: String)
    ensures
        match stored {
            Some(d) => r@ == d@,
            None => r@ == callback_data@,
        },
{
    match stored {
        Some(original) => original.into_inner(),
        None => String::from_str(callback_data),
    }
}

/// Reading stored callback payloads.
pub trait CallbackDataStorageReadTrait {
    /// The payloads by reference.
    spec fn stored(&self) -> Map<Seq<char>, Seq<char>>;

    /// The payload stored under `reference`, if any.
    fn get_callback_data(&self, reference: &str) -> (r: Option<CallbackData>)
        ensures
            r is Some <==> self.stored().dom().contains(reference@),
            r matches Some(d) ==> d@ == self.stored()[reference@],
    ;
}

/// Storing callback payloads for the buttons of a message.
pub trait CallbackDataStorageTrait: CallbackDataStorageReadTrait {
    /// Stores the payload of a button and returns the reference the button
    /// carries instead.
    fn store_callback_data(&mut self, message_id: i32, button_pos: usize, data: CallbackData) -> (r:
        String)
        ensures
            final(self).stored() == old(self).stored().insert(r@, data@),
    ;

    /// Forgets the payloads of a message's buttons.
    fn clear_message_callbacks(&mut self, message_id: i32)
        ensures
            forall|k: Seq<char>|
                #[trigger] final(self).stored().dom().contains(k) <==> (old(self).stored().dom().contains(k)
                    && !starts_with(k, message_prefix(message_id))),
            forall|k: Seq<char>|
                #[trigger] final(self).stored().dom().contains(k) ==> final(self).stored()[k] == old(
                    self,
                ).stored()[k],
    ;
}

/// The start of the references of a message's buttons: `<message id>:`.
pub open spec fn message_prefix(message_id: i32) -> Seq<char> {
    format_padded(message_id as int, 0) + ":"@
}

/// The reference of a button: `<message id>:<position>`.
pub open spec fn button_reference(message_id: i32, button_pos: nat) -> Seq<char> {
    message_prefix(message_id) + decimal_digits(button_pos)
}

/// Callback payloads kept in memory, by button reference.
pub struct CallbackDataStorage {
    store: InMemStore<String>,
}

impl CallbackDataStorage {
    /// No payloads.
    pub fn new() -> (r: CallbackDataStorage)
        ensures
            r.stored() == Map::<Seq<char>, Seq<char>>::empty(),
    {
        let r = CallbackDataStorage { store: InMemStore::new() };
        assert(r.stored() =~= Map::<Seq<char>, Seq<char>>::empty());
        r
    }
}

fn message_prefix_exec(message_id: i32) -> (r: String)
    ensures
        r@ == message_prefix(message_id),
{
    let mut out: Vec<char> = Vec::new();
    let id = int_to_string(message_id as i64);
    extend_str(&mut out, id.as_str());
    extend_str(&mut out, ":");
    string_from_chars(&out)
}

impl CallbackDataStorageReadTrait for CallbackDataStorage {
    closed spec fn stored(&self) -> Map<Seq<char>, Seq<char>> {
        self.store.contents().map_values(|v: String| v@)
    }

    fn get_callback_data(&self, reference: &str) -> (r: Option<CallbackData>) {
        match self.store.get(reference) {
            Some(v) => {
                assert(v == self.store.contents()[reference@]);
                Some(CallbackData::new(v))
            },
            None => None,
        }
    }
}

impl CallbackDataStorageTrait for CallbackDataStorage {
    fn store_callback_data(&mut self, message_id: i32, button_pos: usize, data: CallbackData) -> (r:
        String)
        ensures
            r@ == button_reference(message_id, button_pos as nat),
    {
        let mut out: Vec<char> = Vec::new();
        let prefix = message_prefix_exec(message_id);
        extend_str(&mut out, prefix.as_str());
        let pos = decimal_digits_exec(button_pos as u64);
        crate::text::extend_range(&mut out, &pos, 0, pos.len());
        assert(pos@.subrange(0, pos@.len() as int) =~= pos@);
        let reference = string_from_chars(&out);
        assert(reference@ =~= button_reference(message_id, button_pos as nat));
        let ghost before = self.store.contents();
        self.store.set(reference.as_str(), data.into_inner());
        assert(self.store.contents().map_values(|v: String| v@) =~= before.map_values(
            |v: String| v@,
        ).insert(reference@, data@));
        reference
    }

    fn clear_message_callbacks(&mut self, message_id: i32) {
        let prefix = message_prefix_exec(message_id);
        let pv = chars_of(prefix.as_str());
        let keys = self.store.keys();
        let ghost start = self.store.contents();
        let mut i: usize = 0;
        while i < keys.len()
            invariant
                i <= keys.len(),
                pv@ == message_prefix(message_id),
                string_views(keys@).no_duplicates(),
                forall|k: Seq<char>| string_views(keys@).contains(k) <==> start.dom().contains(k),
                forall|k: Seq<char>|
                    #[trigger] self.store.contents().dom().contains(k) <==> (start.dom().contains(k)
                        && !(starts_with(k, pv@) && string_views(keys@).subrange(0, i as int).contains(k))),
                forall|k: Seq<char>|
                    #[trigger] self.store.contents().dom().contains(k) ==> self.store.contents()[k]
                        == start[k],
            decreases keys.len() - i,
        {
            let kv = chars_of(keys[i].as_str());
            let ghost ki = keys@[i as int]@;
            assert(string_views(keys@)[i as int] == ki);
            if crate::message::starts_with_chars(&kv, &pv) {
                self.store.remove(keys[i].as_str());
            }
            proof {
                let pre = string_views(keys@).subrange(0, i as int);
                let post = string_views(keys@).subrange(0, i + 1);
                assert(post =~= pre.push(ki));
                assert forall|k: Seq<char>| post.contains(k) <==> (pre.contains(k) || k == ki) by {
                    if post.contains(k) && k != ki {
                        let j = choose|j: int| 0 <= j < post.len() && post[j] == k;
                        assert(pre[j] == k);
                    }
                    if pre.contains(k) {
                        let j = choose|j: int| 0 <= j < pre.len() && pre[j] == k;
                        assert(post[j] == k);
                    }
                    if k == ki {
                        assert(post[i as int] == k);
                    }
                }
            }
            i = i + 1;
        }
        proof {
            assert(string_views(keys@).subrange(0, keys@.len() as int) =~= string_views(keys@));
        }
    }
}

/// A keyboard button before packing: a callback button with its label and
/// payload, or a button that puts a query into the chat's input box.
pub enum ButtonData {
    Callback(String, String),
    SwitchInlineQuery(String, String),
}

/// A button as (is a callback button, label, payload or query).
pub open spec fn button_data_view(b: ButtonData) -> (bool, Seq<char>, Seq<char>) {
    match b {
        ButtonData::Callback(l, d) => (true, l@, d@),
        ButtonData::SwitchInlineQuery(l, q) => (false, l@, q@),
    }
}

/// The views of a row of buttons.
pub open spec fn button_row_views(r: Seq<ButtonData>) -> Seq<(bool, Seq<char>, Seq<char>)> {
    r.map_values(|b: ButtonData| button_data_view(b))
}

/// The views of rows of buttons.
pub open spec fn button_rows_views(rs: Seq<Vec<ButtonData>>) -> Seq<
    Seq<(bool, Seq<char>, Seq<char>)>,
> {
    rs.map_values(|r: Vec<ButtonData>| button_row_views(r@))
}

/// The number of callback buttons in a row.
pub open spec fn callbacks_in(row: Seq<(bool, Seq<char>, Seq<char>)>) -> nat
    decreases row.len(),
{
    if row.len() == 0 {
        0
    } else {
        callbacks_in(row.drop_last()) + if row.last().0 {
            1nat
        } else {
            0nat
        }
    }
}

/// The number of callback buttons in rows.
pub open spec fn callbacks_in_rows(rows: Seq<Seq<(bool, Seq<char>, Seq<char>)>>) -> nat
    decreases rows.len(),
{
    if rows.len() == 0 {
        0
    } else {
        callbacks_in_rows(rows.drop_last()) + callbacks_in(rows.last())
    }
}

/// A button after packing, when it is callback button number `pos` of the
/// keyboard: its payload is replaced by its reference.
pub open spec fn packed_button(b: (bool, Seq<char>, Seq<char>), message_id: i32, pos: nat) -> (
    bool,
    Seq<char>,
    Seq<char>,
) {
    if b.0 {
        (true, b.1, button_reference(message_id, pos))
    } else {
        b
    }
}

/// A row after packing, its first callback button being number `pos`.
pub open spec fn packed_row(row: Seq<(bool, Seq<char>, Seq<char>)>, message_id: i32, pos: nat) -> Seq<
    (bool, Seq<char>, Seq<char>),
>
    decreases row.len(),
{
    if row.len() == 0 {
        Seq::empty()
    } else {
        packed_row(row.drop_last(), message_id, pos).push(
            packed_button(row.last(), message_id, pos + callbacks_in(row.drop_last())),
        )
    }
}

/// The rows after packing; callback buttons are numbered row by row, from 0.
pub open spec fn packed_rows(rows: Seq<Seq<(bool, Seq<char>, Seq<char>)>>, message_id: i32) -> Seq<
    Seq<(bool, Seq<char>, Seq<char>)>,
>
    decreases rows.len(),
{
    if rows.len() == 0 {
        Seq::empty()
    } else {
        packed_rows(rows.drop_last(), message_id).push(
            packed_row(rows.last(), message_id, callbacks_in_rows(rows.drop_last())),
        )
    }
}

/// The payloads a row stores, by reference.
pub open spec fn row_references(
    row: Seq<(bool, Seq<char>, Seq<char>)>,
    message_id: i32,
    pos: nat,
) -> Map<Seq<char>, Seq<char>>
    decreases row.len(),
{
    if row.len() == 0 {
        Map::empty()
    } else {
        let m = row_references(row.drop_last(), message_id, pos);
        if row.last().0 {
            m.insert(button_reference(message_id, pos + callbacks_in(row.drop_last())), row.last().2)
        } else {
            m
        }
    }
}

/// The payloads rows store, by reference.
pub open spec fn rows_references(
    rows: Seq<Seq<(bool, Seq<char>, Seq<char>)>>,
    message_id: i32,
) -> Map<Seq<char>, Seq<char>>
    decreases rows.len(),
{
    if rows.len() == 0 {
        Map::empty()
    } else {
        rows_references(rows.drop_last(), message_id).union_prefer_right(
            row_references(rows.last(), message_id, callbacks_in_rows(rows.drop_last())),
        )
    }
}

/// The stored payloads without those of a message's buttons.
pub open spec fn without_message(m: Map<Seq<char>, Seq<char>>, message_id: i32) -> Map<
    Seq<char>,
    Seq<char>,
> {
    Map::new(|k: Seq<char>| m.dom().contains(k) && !starts_with(k, message_prefix(message_id)), |k: Seq<char>| m[k])
}

proof fn lemma_callbacks_in_prefix(row: Seq<(bool, Seq<char>, Seq<char>)>, j: int)
    requires
        0 <= j <= row.len(),
    ensures
        callbacks_in(row.subrange(0, j)) <= callbacks_in(row),
    decreases row.len() - j,
{
    if j < row.len() {
        lemma_callbacks_in_prefix(row, j + 1);
        assert(row.subrange(0, j + 1).drop_last() =~= row.subrange(0, j));
    } else {
        assert(row.subrange(0, j) =~= row);
    }
}

proof fn lemma_callbacks_in_rows_prefix(rows: Seq<Seq<(bool, Seq<char>, Seq<char>)>>, i: int)
    requires
        0 <= i <= rows.len(),
    ensures
        callbacks_in_rows(rows.subrange(0, i)) <= callbacks_in_rows(rows),
    decreases rows.len() - i,
{
    if i < rows.len() {
        lemma_callbacks_in_rows_prefix(rows, i + 1);
        assert(rows.subrange(0, i + 1).drop_last() =~= rows.subrange(0, i));
    } else {
        assert(rows.subrange(0, i) =~= rows);
    }
}

/// Packs one row: stores the payload of each callback button and puts its
/// reference on the button.
fn pack_row(
    storage: &mut CallbackDataStorage,
    message_id: i32,
    row: &Vec<ButtonData>,
    start: usize,
) -> (r: (Vec<ButtonData>, usize))
    requires
        start + callbacks_in(button_row_views(row@)) <= usize::MAX,
    ensures
        button_row_views(r.0@) == packed_row(button_row_views(row@), message_id, start as nat),
        r.1 == start + callbacks_in(button_row_views(row@)),
        final(storage).stored() == old(storage).stored().union_prefer_right(
            row_references(button_row_views(row@), message_id, start as nat),
        ),
{
    let ghost rv = button_row_views(row@);
    let ghost s0 = storage.stored();
    let mut out: Vec<ButtonData> = Vec::new();
    let mut pos = start;
    let mut j: usize = 0;
    while j < row.len()
        invariant
            j <= row.len(),
            rv == button_row_views(row@),
            start + callbacks_in(rv) <= usize::MAX,
            button_row_views(out@) == packed_row(rv.subrange(0, j as int), message_id, start as nat),
            pos == start + callbacks_in(rv.subrange(0, j as int)),
            storage.stored() == s0.union_prefer_right(
                row_references(rv.subrange(0, j as int), message_id, start as nat),
            ),
        decreases row.len() - j,
    {
        let ghost pre = rv.subrange(0, j as int);
        let ghost post = rv.subrange(0, j + 1);
        assert(post.drop_last() =~= pre);
        assert(post.last() == button_data_view(row@[j as int]));
        proof {
            lemma_callbacks_in_prefix(rv, j + 1);
        }
        let ghost out_before = button_row_views(out@);
        match &row[j] {
            ButtonData::Callback(l, d) => {
                let key = storage.store_callback_data(message_id, pos, CallbackData::new(d.clone()));
                out.push(ButtonData::Callback(l.clone(), key));
                pos = pos + 1;
                assert(storage.stored() =~= s0.union_prefer_right(
                    row_references(post, message_id, start as nat),
                ));
            },
            ButtonData::SwitchInlineQuery(l, q) => {
                out.push(ButtonData::SwitchInlineQuery(l.clone(), q.clone()));
            },
        }
        assert(button_row_views(out@) =~= out_before.push(packed_button(post.last(), message_id, (start + callbacks_in(pre)) as nat)));
        j = j + 1;
    }
    assert(rv.subrange(0, row@.len() as int) =~= rv);
    (out, pos)
}

/// Packs the buttons of a message's keyboard: first forgets the payloads the
/// message's buttons had, then stores the payload of each callback button
/// under a reference of its own and puts the reference on the button.
pub fn pack_callback_data(
    storage: &mut CallbackDataStorage,
    message_id: i32,
    rows: &Vec<Vec<ButtonData>>,
) -> (r: Vec<Vec<ButtonData>>)
    requires
        callbacks_in_rows(button_rows_views(rows@)) <= usize::MAX,
    ensures
        button_rows_views(r@) == packed_rows(button_rows_views(rows@), message_id),
        final(storage).stored() == without_message(old(storage).stored(), message_id).union_prefer_right(
            rows_references(button_rows_views(rows@), message_id),
        ),
{
    let ghost rv = button_rows_views(rows@);
    storage.clear_message_callbacks(message_id);
    let ghost cleared = storage.stored();
    assert(cleared =~= without_message(old(storage).stored(), message_id));
    let mut out: Vec<Vec<ButtonData>> = Vec::new();
    let mut pos: usize = 0;
    let mut i: usize = 0;
    while i < rows.len()
        invariant
            i <= rows.len(),
            rv == button_rows_views(rows@),
            callbacks_in_rows(rv) <= usize::MAX,
            button_rows_views(out@) == packed_rows(rv.subrange(0, i as int), message_id),
            pos == callbacks_in_rows(rv.subrange(0, i as int)),
            storage.stored() == cleared.union_prefer_right(
                rows_references(rv.subrange(0, i as int), message_id),
            ),
        decreases rows.len() - i,
    {
        let ghost pre = rv.subrange(0, i as int);
        let ghost post = rv.subrange(0, i + 1);
        assert(post.drop_last() =~= pre);
        assert(post.last() == button_row_views(rows@[i as int]@));
        proof {
            lemma_callbacks_in_rows_prefix(rv, i + 1);
        }
        let ghost out_before = button_rows_views(out@);
        let (packed, next) = pack_row(storage, message_id, &rows[i], pos);
        out.push(packed);
        pos = next;
        assert(button_rows_views(out@) =~= out_before.push(button_row_views(packed@)));
        assert(storage.stored() =~= cleared.union_prefer_right(
            rows_references(post, message_id),
        ));
        i = i + 1;
    }
    assert(rv.subrange(0, rows@.len() as int) =~= rv);
    out
}

/// The payloads of the callback buttons of a row, in order.
pub open spec fn row_payloads(row: Seq<(bool, Seq<char>, Seq<char>)>) -> Seq<Seq<char>>
    decreases row.len(),
{
    if row.len() == 0 {
        Seq::empty()
    } else if row.last().0 {
        row_payloads(row.drop_last()).push(row.last().2)
    } else {
        row_payloads(row.drop_last())
    }
}

/// The payloads of the callback buttons of a keyboard, row by row.
pub open spec fn callback_payloads(rows: Seq<Seq<(bool, Seq<char>, Seq<char>)>>) -> Seq<Seq<char>>
    decreases rows.len(),
{
    if rows.len() == 0 {
        Seq::empty()
    } else {
        callback_payloads(rows.drop_last()) + row_payloads(rows.last())
    }
}

/// Distinct positions have distinct references.
proof fn lemma_reference_injective(message_id: i32, a: nat, b: nat)
    requires
        button_reference(message_id, a) == button_reference(message_id, b),
    ensures
        a == b,
{
    let p = message_prefix(message_id);
    let ra = button_reference(message_id, a);
    assert(ra.subrange(p.len() as int, ra.len() as int) =~= decimal_digits(a));
    assert(button_reference(message_id, b).subrange(p.len() as int, ra.len() as int) =~= decimal_digits(b));
    crate::numbers::lemma_decimal_digits_value(a);
    crate::numbers::lemma_decimal_digits_value(b);
}

/// The reference of position `base + k`.
pub open spec fn offset_reference(message_id: i32, base: nat, k: int) -> Seq<char> {
    button_reference(message_id, (base + k) as nat)
}

/// A row stores the payload of its `k`-th callback button under the
/// reference of position `pos + k`, and nothing else.
proof fn lemma_row_references(row: Seq<(bool, Seq<char>, Seq<char>)>, message_id: i32, pos: nat)
    ensures
        row_payloads(row).len() == callbacks_in(row),
        forall|k: int|
            0 <= k < callbacks_in(row) ==> #[trigger] row_references(row, message_id, pos).dom().contains(
                offset_reference(message_id, pos, k),
            ) && row_references(row, message_id, pos)[offset_reference(message_id, pos, k)]
                == row_payloads(row)[k],
        forall|key: Seq<char>|
            #[trigger] row_references(row, message_id, pos).dom().contains(key) ==> exists|k: int|
                0 <= k < callbacks_in(row) && key == offset_reference(message_id, pos, k),
    decreases row.len(),
{
    if row.len() > 0 {
        let init = row.drop_last();
        lemma_row_references(init, message_id, pos);
        let n = callbacks_in(init);
        let m0 = row_references(init, message_id, pos);
        let m = row_references(row, message_id, pos);
        if row.last().0 {
            let r_new = offset_reference(message_id, pos, n as int);
            assert forall|k: int|
                0 <= k < callbacks_in(row) implies #[trigger] m.dom().contains(
                    offset_reference(message_id, pos, k),
                ) && m[offset_reference(message_id, pos, k)] == row_payloads(row)[k] by {
                if k < n {
                    if offset_reference(message_id, pos, k) == r_new {
                        lemma_reference_injective(message_id, (pos + k) as nat, (pos + n) as nat);
                    }
                    assert(m0.dom().contains(offset_reference(message_id, pos, k)));
                    assert(row_payloads(row)[k] == row_payloads(init)[k]);
                }
            }
            assert forall|key: Seq<char>| #[trigger] m.dom().contains(key) implies exists|k: int|
                0 <= k < callbacks_in(row) && key == offset_reference(message_id, pos, k) by {
                if key != r_new {
                    assert(m0.dom().contains(key));
                    let k = choose|k: int|
                        0 <= k < callbacks_in(init) && key == offset_reference(message_id, pos, k);
                    assert(0 <= k < callbacks_in(row));
                } else {
                    assert(key == offset_reference(message_id, pos, n as int));
                }
            }
        } else {
            assert forall|k: int|
                0 <= k < callbacks_in(row) implies #[trigger] m.dom().contains(
                    offset_reference(message_id, pos, k),
                ) && m[offset_reference(message_id, pos, k)] == row_payloads(row)[k] by {
                assert(m0.dom().contains(offset_reference(message_id, pos, k)));
            }
        }
    }
}

/// The keyboard stores the payload of its `k`-th callback button under the
/// reference of position `k`, and nothing else.
proof fn lemma_rows_references(rows: Seq<Seq<(bool, Seq<char>, Seq<char>)>>, message_id: i32)
    ensures
        callback_payloads(rows).len() == callbacks_in_rows(rows),
        forall|k: int|
            0 <= k < callbacks_in_rows(rows) ==> #[trigger] rows_references(rows, message_id).dom().contains(
                offset_reference(message_id, 0, k),
            ) && rows_references(rows, message_id)[offset_reference(message_id, 0, k)]
                == callback_payloads(rows)[k],
        forall|key: Seq<char>|
            #[trigger] rows_references(rows, message_id).dom().contains(key) ==> exists|k: int|
                0 <= k < callbacks_in_rows(rows) && key == offset_reference(message_id, 0, k),
    decreases rows.len(),
{
    if rows.len() > 0 {
        let init = rows.drop_last();
        lemma_rows_references(init, message_id);
        let n = callbacks_in_rows(init);
        lemma_row_references(rows.last(), message_id, n);
        let m0 = rows_references(init, message_id);
        let mr = row_references(rows.last(), message_id, n);
        let m = rows_references(rows, message_id);
        assert forall|k: int|
            0 <= k < callbacks_in_rows(rows) implies #[trigger] m.dom().contains(
                offset_reference(message_id, 0, k),
            ) && m[offset_reference(message_id, 0, k)] == callback_payloads(rows)[k] by {
            let key = offset_reference(message_id, 0, k);
            if k < n {
                assert(m0.dom().contains(key));
                if mr.dom().contains(key) {
                    let j = choose|j: int|
                        0 <= j < callbacks_in(rows.last()) && key == offset_reference(message_id, n, j);
                    lemma_reference_injective(message_id, k as nat, (n + j) as nat);
                }
                assert(callback_payloads(rows)[k] == callback_payloads(init)[k]);
            } else {
                let j = k - n;
                assert(offset_reference(message_id, 0, k) == offset_reference(message_id, n, j));
                assert(mr.dom().contains(offset_reference(message_id, n, j)));
                assert(callback_payloads(rows)[k] == row_payloads(rows.last())[j]);
            }
        }
        assert forall|key: Seq<char>| #[trigger] m.dom().contains(key) implies exists|k: int|
            0 <= k < callbacks_in_rows(rows) && key == offset_reference(message_id, 0, k) by {
            if mr.dom().contains(key) {
                let j = choose|j: int|
                    0 <= j < callbacks_in(rows.last()) && key == offset_reference(message_id, n, j);
                assert(offset_reference(message_id, 0, n + j) == offset_reference(message_id, n, j));
                assert(0 <= n + j < callbacks_in_rows(rows));
            } else {
                assert(m0.dom().contains(key));
                let k = choose|k: int| 0 <= k < n && key == offset_reference(message_id, 0, k);
                assert(0 <= k < callbacks_in_rows(rows));
            }
        }
    }
}

/// Packed buttons read back: after `pack_callback_data`, the reference of
/// the `k`-th callback button of the keyboard gives back that button's
/// payload, and the message's references are exactly those of its buttons;
/// references of other messages keep their payloads.
pub proof fn law_packed_buttons_read_back(
    stored: Map<Seq<char>, Seq<char>>,
    rows: Seq<Seq<(bool, Seq<char>, Seq<char>)>>,
    message_id: i32,
    k: int,
    other: Seq<char>,
)
    requires
        0 <= k < callbacks_in_rows(rows),
        !starts_with(other, message_prefix(message_id)),
    ensures
        ({
            let after = without_message(stored, message_id).union_prefer_right(
                rows_references(rows, message_id),
            );
            &&& after.dom().contains(button_reference(message_id, k as nat))
            &&& after[button_reference(message_id, k as nat)] == callback_payloads(rows)[k]
            &&& after.dom().contains(other) == stored.dom().contains(other)
            &&& stored.dom().contains(other) ==> after[other] == stored[other]
        }),
{
    lemma_rows_references(rows, message_id);
    let m = rows_references(rows, message_id);
    if m.dom().contains(other) {
        let j = choose|j: int| 0 <= j < callbacks_in_rows(rows) && other == offset_reference(message_id, 0, j);
        let p = message_prefix(message_id);
        assert(other.subrange(0, p.len() as int) =~= p);
    }
    let after = without_message(stored, message_id).union_prefer_right(m);
    assert(m.dom().contains(offset_reference(message_id, 0, k)));
    assert(offset_reference(message_id, 0, k) == button_reference(message_id, k as nat));
    assert(after.dom().contains(button_reference(message_id, k as nat)));
}

} // verus!
