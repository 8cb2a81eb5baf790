//! Signed operations and their last-writer-wins merge: one register per
//! CRDT key, the operation with the greatest `(timestamp, op_id)` wins.
use vstd::prelude::*;
use vstd::string::*;
use crate::crypto::{self, CryptoError, db_name_check, hex_signature_check, hex_encoded, ed25519_signature, ed25519_public_key};
use crate::discovery::{message_bytes, new_uuid};
use crate::text::{self, decimal, text_or_empty};

verus! {

/// Lexicographic order of texts by code point. For UTF-8 strings this is
/// the byte order that `String`'s `Ord` uses.
pub open spec fn text_lt(a: Seq<char>, b: Seq<char>) -> bool
    decreases a.len(),
{
    if a.len() == 0 {
        b.len() > 0
    } else if b.len() == 0 {
        false
    } else if a[0] < b[0] {
        true
    } else if a[0] > b[0] {
        false
    } else {
        text_lt(a.drop_first(), b.drop_first())
    }
}

pub proof fn lemma_text_lt_irreflexive(a: Seq<char>)
    ensures
        !text_lt(a, a),
    decreases a.len(),
{
    if a.len() > 0 {
        lemma_text_lt_irreflexive(a.drop_first());
    }
}

pub proof fn lemma_text_lt_transitive(a: Seq<char>, b: Seq<char>, c: Seq<char>)
    requires
        text_lt(a, b),
        text_lt(b, c),
    ensures
        text_lt(a, c),
    decreases a.len(),
{
    if a.len() > 0 && b.len() > 0 && c.len() > 0 && a[0] == b[0] && b[0] == c[0] {
        lemma_text_lt_transitive(a.drop_first(), b.drop_first(), c.drop_first());
    }
}

pub proof fn lemma_text_lt_total(a: Seq<char>, b: Seq<char>)
    ensures
        a == b || text_lt(a, b) || text_lt(b, a),
    decreases a.len(),
{
    if a.len() > 0 && b.len() > 0 && a[0] == b[0] {
        lemma_text_lt_total(a.drop_first(), b.drop_first());
        if a.drop_first() == b.drop_first() {
            assert(a[0] == b[0]);
            assert(a =~= seq![a[0]] + a.drop_first());
            assert(b =~= seq![b[0]] + b.drop_first());
        }
    } else if a.len() == 0 && b.len() == 0 {
        assert(a =~= b);
    }
}

/// Whether `a < b` in code-point order.
pub fn str_less(a: &str, b: &str) -> (r: bool)
    ensures
        r == text_lt(a@, b@),
{
    let n = a.unicode_len();
    let m = b.unicode_len();
    let mut i: usize = 0;
    assert(a@.subrange(0, n as int) =~= a@);
    assert(b@.subrange(0, m as int) =~= b@);
    while i < n && i < m
        invariant
            n == a@.len(),
            m == b@.len(),
            i <= n,
            i <= m,
            text_lt(a@, b@) == text_lt(a@.subrange(i as int, n as int), b@.subrange(i as int, m as int)),
        decreases n - i,
    {
        let x = a.get_char(i);
        let y = b.get_char(i);
        assert(a@.subrange(i as int, n as int)[0] == x);
        assert(b@.subrange(i as int, m as int)[0] == y);
        if x < y {
            return true;
        }
        if x > y {
            return false;
        }
        assert(a@.subrange(i as int, n as int).drop_first() =~= a@.subrange(i + 1, n as int));
        assert(b@.subrange(i as int, m as int).drop_first() =~= b@.subrange(i + 1, m as int));
        i += 1;
    }
    i == n && i < m
}

/// A replicated write: a value for a key of a database, signed by the
/// database's owner. Floating-point extras travel as their IEEE-754 bits.
#[derive(Debug, Clone)]
pub struct SignedOperation {
    pub op_id: String,
    /// Unix time in milliseconds.
    pub timestamp: i64,
    pub db_name: String,
    pub key: String,
    pub value: String,
    /// `String`, `Hash`, `JSON`, ...
    pub store_type: String,
    /// Required when the store type is `Hash`.
    pub field: Option<String>,
    pub score_bits: Option<u64>,
    pub json_path: Option<String>,
    pub stream_fields: Option<String>,
    pub ts_timestamp: Option<String>,
    pub longitude_bits: Option<u64>,
    pub latitude_bits: Option<u64>,
    pub public_key: String,
    pub signature: String,
}

/// `{op_id}:{timestamp}:{db_name}:{key}:{value}`.
pub open spec fn full_message(op: SignedOperation) -> Seq<char> {
    op.op_id@ + seq![':'] + decimal(op.timestamp as int) + seq![':'] + op.db_name@ + seq![':'] + op.key@
        + seq![':'] + op.value@
}

/// `{db_name}:{key}:{value}`.
pub open spec fn short_message(op: SignedOperation) -> Seq<char> {
    op.db_name@ + seq![':'] + op.key@ + seq![':'] + op.value@
}

/// The full form is tried first; only when it does not verify does the
/// short form decide, errors included.
pub open spec fn operation_check(op: SignedOperation) -> Result<bool, CryptoError> {
    if hex_signature_check(op.public_key@, message_bytes(full_message(op)), op.signature@)
        == Ok::<bool, CryptoError>(true) {
        Ok(true)
    } else {
        hex_signature_check(op.public_key@, message_bytes(short_message(op)), op.signature@)
    }
}

pub open spec fn operation_verified(op: SignedOperation) -> bool {
    operation_check(op) == Ok::<bool, CryptoError>(true)
}

/// The database an operation writes belongs to its signer: when a public
/// key is given, the name must pass the full name check under it.
pub open spec fn db_name_bound(op: SignedOperation) -> bool {
    op.public_key@.len() == 0 || db_name_check(op.db_name@, op.public_key@) is Ok
}

/// An inbound operation is taken into account only when its database is
/// bound to its key and its signature holds.
pub open spec fn operation_admitted(op: SignedOperation) -> bool {
    db_name_bound(op) && operation_verified(op)
}

/// `{db_name}:{key}:{field}` with a field, `{db_name}:{key}` without.
pub open spec fn crdt_key_of(op: SignedOperation) -> Seq<char> {
    match op.field {
        Some(f) => op.db_name@ + seq![':'] + op.key@ + seq![':'] + f@,
        None => op.db_name@ + seq![':'] + op.key@,
    }
}

/// `a` comes before `b` in `(timestamp, op_id)` order.
pub open spec fn op_before(a: SignedOperation, b: SignedOperation) -> bool {
    a.timestamp < b.timestamp || (a.timestamp == b.timestamp && text_lt(a.op_id@, b.op_id@))
}

pub proof fn lemma_op_before_transitive(a: SignedOperation, b: SignedOperation, c: SignedOperation)
    requires
        op_before(a, b),
        op_before(b, c),
    ensures
        op_before(a, c),
{
    if a.timestamp == b.timestamp && b.timestamp == c.timestamp {
        lemma_text_lt_transitive(a.op_id@, b.op_id@, c.op_id@);
    }
}

pub proof fn lemma_op_before_irreflexive(a: SignedOperation)
    ensures
        !op_before(a, a),
{
    lemma_text_lt_irreflexive(a.op_id@);
}

pub proof fn lemma_op_before_total(a: SignedOperation, b: SignedOperation)
    ensures
        op_before(a, b) || op_before(b, a) || (a.timestamp == b.timestamp && a.op_id@ == b.op_id@),
{
    lemma_text_lt_total(a.op_id@, b.op_id@);
}

pub fn op_less(a: &SignedOperation, b: &SignedOperation) -> (r: bool)
    ensures
        r == op_before(*a, *b),
{
    a.timestamp < b.timestamp || (a.timestamp == b.timestamp && str_less(a.op_id.as_str(), b.op_id.as_str()))
}

fn append_field(s: &mut String, part: &String)
    ensures
        final(s)@ == old(s)@ + seq![':'] + part@,
{
    s.append(text::colon());
    s.append(part.as_str());
}

impl SignedOperation {
    pub fn full_signing_message(&self) -> (r: String)
        ensures
            r@ == full_message(*self),
    {
        let mut s = self.op_id.clone();
        let ts = text::i64_to_decimal(self.timestamp);
        append_field(&mut s, &ts);
        append_field(&mut s, &self.db_name);
        append_field(&mut s, &self.key);
        append_field(&mut s, &self.value);
        s
    }

    pub fn short_signing_message(&self) -> (r: String)
        ensures
            r@ == short_message(*self),
    {
        let mut s = self.db_name.clone();
        append_field(&mut s, &self.key);
        append_field(&mut s, &self.value);
        s
    }

    /// Check the signature over the full form, then over the short form.
    pub fn verify(&self) -> (r: Result<bool, CryptoError>)
        ensures
            r == operation_check(*self),
    {
        let full = self.full_signing_message();
        match crypto::verify_signature(self.public_key.as_str(), full.as_str().as_bytes(), self.signature.as_str()) {
            Ok(true) => {
                return Ok(true);
            },
            _ => {},
        }
        let short = self.short_signing_message();
        crypto::verify_signature(self.public_key.as_str(), short.as_str().as_bytes(), self.signature.as_str())
    }

    /// Check the signature over the full form only.
    pub fn verify_full(&self) -> (r: Result<bool, CryptoError>)
        ensures
            r == hex_signature_check(self.public_key@, message_bytes(full_message(*self)), self.signature@),
    {
        let full = self.full_signing_message();
        crypto::verify_signature(self.public_key.as_str(), full.as_str().as_bytes(), self.signature.as_str())
    }

    pub fn crdt_key(&self) -> (r: String)
        ensures
            r@ == crdt_key_of(*self),
    {
        let mut s = self.db_name.clone();
        append_field(&mut s, &self.key);
        match &self.field {
            Some(f) => append_field(&mut s, f),
            None => {},
        }
        s
    }

    /// An operation with a fresh id, stamped with the current time, carrying
    /// the given signature.
    pub fn new(db_name: String, key: String, value: String, store_type: String, public_key: String, signature: String) -> (r: Self)
        ensures
            r.op_id@.len() == 36,
            r.db_name == db_name,
            r.key == key,
            r.value == value,
            r.store_type == store_type,
            r.public_key == public_key,
            r.signature == signature,
            r.field is None,
    {
        SignedOperation {
            op_id: new_uuid(),
            timestamp: crypto::now_millis(),
            db_name,
            key,
            value,
            store_type,
            field: None,
            score_bits: None,
            json_path: None,
            stream_fields: None,
            ts_timestamp: None,
            longitude_bits: None,
            latitude_bits: None,
            public_key,
            signature,
        }
    }

    /// An operation with a fresh id and the current time, signed in full form.
    pub fn create_and_sign(db_name: String, key: String, value: String, store_type: String, secret: &[u8; 32]) -> (r: Self)
        ensures
            r.op_id@.len() == 36,
            r.db_name == db_name,
            r.key == key,
            r.value == value,
            r.store_type == store_type,
            r.field is None,
            r.public_key@ == hex_encoded(ed25519_public_key(secret@)),
            r.signature@ == hex_encoded(ed25519_signature(secret@, message_bytes(full_message(r)))),
            message_bytes(full_message(r)).len() <= crypto::MAX_MESSAGE_LENGTH ==> operation_verified(r),
    {
        let mut op = SignedOperation {
            op_id: new_uuid(),
            timestamp: crypto::now_millis(),
            db_name,
            key,
            value,
            store_type,
            field: None,
            score_bits: None,
            json_path: None,
            stream_fields: None,
            ts_timestamp: None,
            longitude_bits: None,
            latitude_bits: None,
            public_key: crypto::public_key_hex(secret),
            signature: String::new(),
        };
        let message = op.full_signing_message();
        op.signature = crypto::sign_message(secret, message.as_str().as_bytes());
        op
    }

    /// A copy with every field the same.
    pub fn duplicate(&self) -> (r: Self)
        ensures
            r == *self,
    {
        SignedOperation {
            op_id: self.op_id.clone(),
            timestamp: self.timestamp,
            db_name: self.db_name.clone(),
            key: self.key.clone(),
            value: self.value.clone(),
            store_type: self.store_type.clone(),
            field: text::clone_opt(&self.field),
            score_bits: self.score_bits,
            json_path: text::clone_opt(&self.json_path),
            stream_fields: text::clone_opt(&self.stream_fields),
            ts_timestamp: text::clone_opt(&self.ts_timestamp),
            longitude_bits: self.longitude_bits,
            latitude_bits: self.latitude_bits,
            public_key: self.public_key.clone(),
            signature: self.signature.clone(),
        }
    }
}


/// The register after one more operation: it takes `op` when empty or when
/// `op` comes after what it holds.
pub open spec fn lww_step(current: Option<SignedOperation>, op: SignedOperation) -> Option<SignedOperation> {
    match current {
        None => Some(op),
        Some(e) => if op_before(e, op) {
            Some(op)
        } else {
            current
        },
    }
}

/// The register after a sequence of operations delivered in order.
pub open spec fn lww_fold(ops: Seq<SignedOperation>) -> Option<SignedOperation>
    decreases ops.len(),
{
    if ops.len() == 0 {
        None
    } else {
        lww_step(lww_fold(ops.drop_last()), ops.last())
    }
}

proof fn lemma_lww_fold_max(ops: Seq<SignedOperation>)
    ensures
        ops.len() > 0 ==> lww_fold(ops) is Some && ops.contains(lww_fold(ops)->0)
            && forall|i: int| 0 <= i < ops.len() ==> !op_before(lww_fold(ops)->0, #[trigger] ops[i]),
        ops.len() == 0 ==> lww_fold(ops) is None,
    decreases ops.len(),
{
    if ops.len() > 0 {
        let d = ops.drop_last();
        let x = ops.last();
        lemma_lww_fold_max(d);
        let f = lww_fold(ops)->0;
        if d.len() == 0 {
            assert(ops[0] == x);
            lemma_op_before_irreflexive(x);
        } else {
            let g = lww_fold(d)->0;
            let k = choose|k: int| 0 <= k < d.len() && d[k] == g;
            assert(ops[k] == g);
            assert forall|i: int| 0 <= i < ops.len() implies !op_before(f, #[trigger] ops[i]) by {
                if i < d.len() {
                    assert(ops[i] == d[i]);
                    assert(!op_before(g, d[i]));
                    if op_before(g, x) && op_before(x, ops[i]) {
                        lemma_op_before_transitive(g, x, ops[i]);
                    }
                } else {
                    lemma_op_before_irreflexive(x);
                }
            }
        }
        assert(ops[ops.len() - 1] == x);
    }
}

/// Whatever order the same operations for one CRDT key arrive in, the
/// register ends up holding the same one: the greatest in
/// `(timestamp, op_id)` order. Operations that share a timestamp and an
/// op_id are taken to be deliveries of one operation.
pub proof fn lemma_lww_determinism(a: Seq<SignedOperation>, b: Seq<SignedOperation>)
    requires
        a.to_multiset() == b.to_multiset(),
        forall|i: int, j: int|
            0 <= i < a.len() && 0 <= j < a.len() && #[trigger] a[i].timestamp == #[trigger] a[j].timestamp
                && a[i].op_id@ == a[j].op_id@ ==> a[i] == a[j],
    ensures
        lww_fold(a) == lww_fold(b),
        a.len() > 0 ==> a.contains(lww_fold(a)->0)
            && forall|i: int| 0 <= i < a.len() ==> !op_before(lww_fold(a)->0, #[trigger] a[i]),
{
    broadcast use vstd::seq_lib::group_to_multiset_ensures;
    lemma_lww_fold_max(a);
    lemma_lww_fold_max(b);
    assert(a.len() == b.len()) by {
        a.to_multiset_ensures();
        b.to_multiset_ensures();
    }
    if a.len() > 0 {
        let x = lww_fold(a)->0;
        let y = lww_fold(b)->0;
        assert(a.to_multiset().count(x) > 0);
        assert(b.to_multiset().count(x) > 0);
        assert(b.contains(x));
        assert(b.to_multiset().count(y) > 0);
        assert(a.to_multiset().count(y) > 0);
        assert(a.contains(y));
        let i = choose|i: int| 0 <= i < a.len() && a[i] == x;
        let j = choose|j: int| 0 <= j < a.len() && a[j] == y;
        let ib = choose|k: int| 0 <= k < b.len() && b[k] == x;
        assert(!op_before(x, a[j]));
        assert(!op_before(y, b[ib]));
        lemma_op_before_total(x, y);
        assert(a[i].timestamp == a[j].timestamp && a[i].op_id@ == a[j].op_id@);
    }
}

pub open spec fn has_key(ops: Seq<SignedOperation>, k: Seq<char>) -> bool {
    exists|i: int| 0 <= i < ops.len() && #[trigger] crdt_key_of(ops[i]) == k
}

pub open spec fn key_index(ops: Seq<SignedOperation>, k: Seq<char>) -> int {
    choose|i: int| 0 <= i < ops.len() && #[trigger] crdt_key_of(ops[i]) == k
}

pub open spec fn unique_keys(ops: Seq<SignedOperation>) -> bool {
    forall|i: int, j: int|
        0 <= i < ops.len() && 0 <= j < ops.len() && i != j ==> #[trigger] crdt_key_of(ops[i])
            != #[trigger] crdt_key_of(ops[j])
}

/// The operation the map holds for a CRDT key.
pub open spec fn entry(ops: Seq<SignedOperation>, k: Seq<char>) -> Option<SignedOperation> {
    if has_key(ops, k) {
        Some(ops[key_index(ops, k)])
    } else {
        None
    }
}

/// Whether the map takes `op`: nothing held for its key, or `op` comes after.
pub open spec fn lww_accepts(ops: Seq<SignedOperation>, op: SignedOperation) -> bool {
    match entry(ops, crdt_key_of(op)) {
        None => true,
        Some(e) => op_before(e, op),
    }
}

/// `op` in place of the entry for its key, or added when there is none.
pub open spec fn put_op(ops: Seq<SignedOperation>, op: SignedOperation) -> Seq<SignedOperation> {
    if has_key(ops, crdt_key_of(op)) {
        ops.update(key_index(ops, crdt_key_of(op)), op)
    } else {
        ops.push(op)
    }
}

/// The map after an operation whose signature was checked with outcome `verified`.
pub open spec fn after_add(ops: Seq<SignedOperation>, op: SignedOperation, verified: bool) -> Seq<SignedOperation> {
    if verified && lww_accepts(ops, op) {
        put_op(ops, op)
    } else {
        ops
    }
}

/// The map after merging a batch, each operation checked on its database
/// binding and its signature.
pub open spec fn merged(ops: Seq<SignedOperation>, incoming: Seq<SignedOperation>) -> Seq<SignedOperation>
    decreases incoming.len(),
{
    if incoming.len() == 0 {
        ops
    } else {
        let m = merged(ops, incoming.drop_last());
        after_add(m, incoming.last(), operation_admitted(incoming.last()))
    }
}

/// How many operations of a batch the map took.
pub open spec fn merge_count(ops: Seq<SignedOperation>, incoming: Seq<SignedOperation>) -> nat
    decreases incoming.len(),
{
    if incoming.len() == 0 {
        0
    } else {
        let m = merged(ops, incoming.drop_last());
        let x = incoming.last();
        merge_count(ops, incoming.drop_last()) + if operation_admitted(x) && lww_accepts(m, x) {
            1nat
        } else {
            0nat
        }
    }
}

proof fn lemma_key_index(ops: Seq<SignedOperation>, i: int)
    requires
        unique_keys(ops),
        0 <= i < ops.len(),
    ensures
        has_key(ops, crdt_key_of(ops[i])),
        key_index(ops, crdt_key_of(ops[i])) == i,
{
    assert(has_key(ops, crdt_key_of(ops[i])));
}

proof fn lemma_put_keeps_unique(ops: Seq<SignedOperation>, op: SignedOperation)
    requires
        unique_keys(ops),
    ensures
        unique_keys(put_op(ops, op)),
        entry(put_op(ops, op), crdt_key_of(op)) == Some(op),
        forall|k: Seq<char>| k != crdt_key_of(op) ==> #[trigger] entry(put_op(ops, op), k) == entry(ops, k),
{
    let k = crdt_key_of(op);
    let q = put_op(ops, op);
    if has_key(ops, k) {
        let i = key_index(ops, k);
        assert forall|a: int, b: int| 0 <= a < q.len() && 0 <= b < q.len() && a != b
            implies #[trigger] crdt_key_of(q[a]) != #[trigger] crdt_key_of(q[b]) by {
            assert(crdt_key_of(ops[a]) != crdt_key_of(ops[b]));
        }
        lemma_key_index(q, i);
        assert forall|k2: Seq<char>| k2 != k implies #[trigger] entry(q, k2) == entry(ops, k2) by {
            if has_key(ops, k2) {
                let j = key_index(ops, k2);
                assert(q[j] == ops[j]);
                lemma_key_index(q, j);
            }
            if has_key(q, k2) {
                let j = key_index(q, k2);
                assert(q[j] == ops[j]);
            }
        }
    } else {
        assert forall|a: int, b: int| 0 <= a < q.len() && 0 <= b < q.len() && a != b
            implies #[trigger] crdt_key_of(q[a]) != #[trigger] crdt_key_of(q[b]) by {
            if a < ops.len() && b < ops.len() {
                assert(crdt_key_of(ops[a]) != crdt_key_of(ops[b]));
            } else if a < ops.len() {
                assert(crdt_key_of(q[a]) == crdt_key_of(ops[a]));
            } else {
                assert(crdt_key_of(q[b]) == crdt_key_of(ops[b]));
            }
        }
        lemma_key_index(q, ops.len() as int);
        assert forall|k2: Seq<char>| k2 != k implies #[trigger] entry(q, k2) == entry(ops, k2) by {
            if has_key(ops, k2) {
                let j = key_index(ops, k2);
                assert(q[j] == ops[j]);
                lemma_key_index(q, j);
            }
            if has_key(q, k2) {
                let j = key_index(q, k2);
                if j < ops.len() {
                    assert(q[j] == ops[j]);
                }
            }
        }
    }
}

/// The map follows the register for each CRDT key: adding an operation
/// moves the entry for its key by one step of the register and leaves
/// every other key alone.
pub proof fn lemma_add_is_lww_step(ops: Seq<SignedOperation>, op: SignedOperation)
    requires
        unique_keys(ops),
    ensures
        unique_keys(after_add(ops, op, true)),
        entry(after_add(ops, op, true), crdt_key_of(op)) == lww_step(entry(ops, crdt_key_of(op)), op),
        forall|k: Seq<char>| k != crdt_key_of(op) ==> #[trigger] entry(after_add(ops, op, true), k) == entry(ops, k),
{
    lemma_put_keeps_unique(ops, op);
}


/// What applying an operation writes: a value under a key of a database tree.
pub struct StorageWrite {
    /// The operation the write applies; record it with `mark_applied` once
    /// the write is done.
    pub op_id: String,
    pub db_name: String,
    pub key: String,
    pub value: Vec<u8>,
}

pub struct WriteView {
    pub op_id: Seq<char>,
    pub db_name: Seq<char>,
    pub key: Seq<char>,
    pub value: Seq<u8>,
}

impl View for StorageWrite {
    type V = WriteView;

    open spec fn view(&self) -> WriteView {
        WriteView { op_id: self.op_id@, db_name: self.db_name@, key: self.key@, value: self.value@ }
    }
}

#[derive(Debug, Clone, Copy, PartialEq, Eq, Structural)]
pub enum ApplyError {
    /// A `Hash` operation without a field.
    FieldRequired,
}

/// What `str::to_lowercase` makes of a text.
pub uninterp spec fn lower_of(s: Seq<char>) -> Seq<char>;

pub open spec fn is_ascii_text(s: Seq<char>) -> bool {
    forall|i: int| 0 <= i < s.len() ==> (#[trigger] s[i] as u32) < 128
}

/// ASCII lower-casing: `A`-`Z` become `a`-`z`, every other character stays.
pub open spec fn ascii_lower(s: Seq<char>) -> Seq<char> {
    Seq::new(
        s.len(),
        |i: int| if 'A' <= s[i] && s[i] <= 'Z' {
            ((s[i] as u32) + 32) as char
        } else {
            s[i]
        },
    )
}

/// Relies on str::to_lowercase: the result depends on the characters alone,
/// and on ASCII text it maps `A`-`Z` to `a`-`z` and keeps everything else.
#[verifier::external_body]
fn lowercase(s: &str) -> (r: String)
    ensures
        r@ == lower_of(s@),
        is_ascii_text(s@) ==> r@ == ascii_lower(s@),
{
    s.to_lowercase()
}

pub open spec fn hash_type() -> Seq<char> {
    seq!['h', 'a', 's', 'h']
}

/// The write an operation makes, given its store type in lower case: a
/// `hash` operation writes `{key}:{field}` and needs a field, any other
/// type writes its key.
pub open spec fn write_for(op: SignedOperation, store_type_lower: Seq<char>) -> Result<WriteView, ApplyError> {
    if store_type_lower == hash_type() {
        match op.field {
            None => Err(ApplyError::FieldRequired),
            Some(f) => Ok(
                WriteView {
                    op_id: op.op_id@,
                    db_name: op.db_name@,
                    key: op.key@ + seq![':'] + f@,
                    value: message_bytes(op.value@),
                },
            ),
        }
    } else {
        Ok(WriteView { op_id: op.op_id@, db_name: op.db_name@, key: op.key@, value: message_bytes(op.value@) })
    }
}

fn hash_str() -> (r: &'static str)
    ensures
        r@ == hash_type(),
{
    proof {
        reveal_strlit("hash");
    }
    "hash"
}

/// The write an operation makes, given its store type already in lower case.
pub fn storage_write_for(op: &SignedOperation, store_type_lower: &str) -> (r: Result<StorageWrite, ApplyError>)
    ensures
        r matches Ok(w) ==> write_for(*op, store_type_lower@) == Ok::<WriteView, ApplyError>(w@),
        r matches Err(e) ==> write_for(*op, store_type_lower@) == Err::<WriteView, ApplyError>(e),
{
    let value = op.value.as_str().as_bytes_vec();
    let hash = String::from_str(hash_str());
    let lower = String::from_str(store_type_lower);
    if lower == hash {
        match &op.field {
            None => Err(ApplyError::FieldRequired),
            Some(f) => {
                let mut key = op.key.clone();
                append_field(&mut key, f);
                Ok(StorageWrite { op_id: op.op_id.clone(), db_name: op.db_name.clone(), key, value })
            },
        }
    } else {
        Ok(StorageWrite { op_id: op.op_id.clone(), db_name: op.db_name.clone(), key: op.key.clone(), value })
    }
}

/// The write an operation needs against the ids already written: nothing
/// for one written already, otherwise its write. The second part is the
/// set of written ids once that write is done.
pub open spec fn apply_outcome(applied: Seq<Seq<char>>, op: SignedOperation) -> (Result<Option<WriteView>, ApplyError>, Seq<Seq<char>>) {
    if applied.contains(op.op_id@) {
        (Ok(None), applied)
    } else {
        match write_for(op, lower_of(op.store_type@)) {
            Err(e) => (Err(e), applied),
            Ok(w) => (Ok(Some(w)), applied.push(op.op_id@)),
        }
    }
}

/// The writes a pass over the map hands out, in order: one per operation id
/// not written yet, skipping operations whose write cannot be made.
pub open spec fn apply_all_outcome(ops: Seq<SignedOperation>, applied: Seq<Seq<char>>) -> (Seq<WriteView>, Seq<Seq<char>>)
    decreases ops.len(),
{
    if ops.len() == 0 {
        (Seq::empty(), applied)
    } else {
        let (writes, ap) = apply_all_outcome(ops.drop_last(), applied);
        match apply_outcome(ap, ops.last()) {
            (Ok(Some(w)), ap2) => (writes.push(w), ap2),
            (_, ap2) => (writes, ap2),
        }
    }
}

/// A write is handed out only for an id not written yet, and once its id is
/// recorded as written no operation with that id gets a write again: each
/// operation's storage write is done at most once.
pub proof fn lemma_apply_at_most_once(applied: Seq<Seq<char>>, op: SignedOperation, again: SignedOperation)
    requires
        again.op_id@ == op.op_id@,
    ensures
        apply_outcome(applied, op).0 is Ok ==> apply_outcome(apply_outcome(applied, op).1, again) == (
        Ok::<Option<WriteView>, ApplyError>(None), apply_outcome(applied, op).1),
        apply_outcome(applied, op).0 matches Ok(Some(w)) ==> !applied.contains(op.op_id@) && w.op_id == op.op_id@,
        apply_outcome(applied.push(op.op_id@), again).0 == Ok::<Option<WriteView>, ApplyError>(None),
{
    let a1 = apply_outcome(applied, op).1;
    if !applied.contains(op.op_id@) && apply_outcome(applied, op).0 is Ok {
        assert(a1[a1.len() - 1] == op.op_id@);
    }
    assert(applied.push(op.op_id@)[applied.len() as int] == op.op_id@);
}

/// The operations with a timestamp at or after `since`, in their order.
pub open spec fn ops_since(ops: Seq<SignedOperation>, since: int) -> Seq<SignedOperation>
    decreases ops.len(),
{
    if ops.len() == 0 {
        Seq::empty()
    } else if ops.last().timestamp >= since {
        ops_since(ops.drop_last(), since).push(ops.last())
    } else {
        ops_since(ops.drop_last(), since)
    }
}

/// In-memory LWW map, one operation per CRDT key, with the set of operation
/// ids whose writes have been handed out for storage.
pub struct SyncStore {
    operations: Vec<SignedOperation>,
    applied_ops: Vec<String>,
}

impl SyncStore {
    pub closed spec fn ops(&self) -> Seq<SignedOperation> {
        self.operations@
    }

    pub closed spec fn applied(&self) -> Seq<Seq<char>> {
        text::views(self.applied_ops@)
    }

    pub open spec fn wf(&self) -> bool {
        unique_keys(self.ops())
    }

    pub fn new() -> (r: Self)
        ensures
            r.wf(),
            r.ops() == Seq::<SignedOperation>::empty(),
            r.applied() == Seq::<Seq<char>>::empty(),
    {
        let r = SyncStore { operations: Vec::new(), applied_ops: Vec::new() };
        assert(r.applied() =~= Seq::<Seq<char>>::empty());
        r
    }

    pub fn is_applied(&self, op_id: &str) -> (r: bool)
        ensures
            r == self.applied().contains(op_id@),
    {
        let key = String::from_str(op_id);
        let n = self.applied_ops.len();
        let mut i: usize = 0;
        while i < n
            invariant
                n == self.applied_ops@.len(),
                i <= n,
                key@ == op_id@,
                forall|j: int| 0 <= j < i ==> #[trigger] self.applied_ops@[j]@ != op_id@,
            decreases n - i,
        {
            if self.applied_ops[i] == key {
                assert(self.applied()[i as int] == op_id@);
                return true;
            }
            i += 1;
        }
        assert forall|j: int| 0 <= j < self.applied().len() implies self.applied()[j] != op_id@ by {
            assert(self.applied()[j] == self.applied_ops@[j]@);
        }
        false
    }

    /// Record that an operation's write has been handed out.
    pub fn mark_applied(&mut self, op_id: &str)
        ensures
            final(self).ops() == old(self).ops(),
            final(self).applied() == if old(self).applied().contains(op_id@) {
                old(self).applied()
            } else {
                old(self).applied().push(op_id@)
            },
    {
        if !self.is_applied(op_id) {
            self.applied_ops.push(String::from_str(op_id));
            assert(self.applied() =~= old(self).applied().push(op_id@));
        }
    }

    fn find_key(&self, k: &String) -> (r: Option<usize>)
        requires
            self.wf(),
        ensures
            r matches Some(i) ==> i < self.ops().len() && key_index(self.ops(), k@) == i && has_key(self.ops(), k@),
            r is None <==> !has_key(self.ops(), k@),
    {
        let n = self.operations.len();
        let mut i: usize = 0;
        while i < n
            invariant
                n == self.operations@.len(),
                i <= n,
                self.wf(),
                forall|j: int| 0 <= j < i ==> crdt_key_of(#[trigger] self.operations@[j]) != k@,
            decreases n - i,
        {
            let ki = self.operations[i].crdt_key();
            if ki == *k {
                proof {
                    lemma_key_index(self.operations@, i as int);
                }
                return Some(i);
            }
            i += 1;
        }
        None
    }

    /// Merge an operation without checking its signature: for operations
    /// made locally or checked already. Returns whether the map took it.
    pub fn add_operation_unverified(&mut self, op: SignedOperation) -> (r: Result<bool, CryptoError>)
        requires
            old(self).wf(),
        ensures
            final(self).wf(),
            final(self).applied() == old(self).applied(),
            final(self).ops() == after_add(old(self).ops(), op, true),
            r == Ok::<bool, CryptoError>(lww_accepts(old(self).ops(), op)),
    {
        let k = op.crdt_key();
        proof {
            lemma_put_keeps_unique(self.operations@, op);
        }
        match self.find_key(&k) {
            Some(i) => {
                let existing = &self.operations[i];
                if !op_less(existing, &op) {
                    return Ok(false);
                }
                self.operations.set(i, op);
            },
            None => {
                self.operations.push(op);
            },
        }
        Ok(true)
    }

    /// Merge an inbound operation. It is taken only when its database name
    /// is bound to its public key and its signature holds in either form,
    /// and then only if it wins. Returns whether the map took it.
    pub fn add_operation(&mut self, op: SignedOperation) -> (r: Result<bool, CryptoError>)
        requires
            old(self).wf(),
        ensures
            final(self).wf(),
            final(self).applied() == old(self).applied(),
            final(self).ops() == after_add(old(self).ops(), op, operation_admitted(op)),
            r == Ok::<bool, CryptoError>(operation_admitted(op) && lww_accepts(old(self).ops(), op)),
    {
        if op.public_key.as_str().unicode_len() > 0
            && crypto::verify_db_name_secure(op.db_name.as_str(), op.public_key.as_str()).is_err() {
            return Ok(false);
        }
        match op.verify() {
            Ok(true) => self.add_operation_unverified(op),
            _ => Ok(false),
        }
    }

    pub fn get_all_operations(&self) -> (r: Vec<SignedOperation>)
        ensures
            r@ == self.ops(),
    {
        let mut out: Vec<SignedOperation> = Vec::new();
        let n = self.operations.len();
        let mut i: usize = 0;
        while i < n
            invariant
                n == self.operations@.len(),
                i <= n,
                out@ == self.operations@.subrange(0, i as int),
            decreases n - i,
        {
            out.push(self.operations[i].duplicate());
            assert(out@ =~= self.operations@.subrange(0, i + 1));
            i += 1;
        }
        assert(self.operations@.subrange(0, n as int) =~= self.operations@);
        out
    }

    pub fn get_operations_since(&self, timestamp: i64) -> (r: Vec<SignedOperation>)
        ensures
            r@ == ops_since(self.ops(), timestamp as int),
    {
        let mut out: Vec<SignedOperation> = Vec::new();
        let n = self.operations.len();
        let mut i: usize = 0;
        while i < n
            invariant
                n == self.operations@.len(),
                i <= n,
                out@ == ops_since(self.operations@.subrange(0, i as int), timestamp as int),
            decreases n - i,
        {
            assert(self.operations@.subrange(0, i + 1).drop_last() =~= self.operations@.subrange(0, i as int));
            if self.operations[i].timestamp >= timestamp {
                out.push(self.operations[i].duplicate());
            }
            i += 1;
        }
        assert(self.operations@.subrange(0, n as int) =~= self.operations@);
        out
    }

    pub fn operation_count(&self) -> (r: usize)
        ensures
            r == self.ops().len(),
    {
        self.operations.len()
    }

    /// Merge a batch, checking each signature. Returns how many were taken.
    pub fn merge_operations(&mut self, operations: Vec<SignedOperation>) -> (r: Result<usize, CryptoError>)
        requires
            old(self).wf(),
        ensures
            final(self).wf(),
            final(self).applied() == old(self).applied(),
            final(self).ops() == merged(old(self).ops(), operations@),
            r == Ok::<usize, CryptoError>(merge_count(old(self).ops(), operations@) as usize),
    {
        let mut count: usize = 0;
        let n = operations.len();
        let mut rest = operations;
        let mut i: usize = 0;
        while i < n
            invariant
                n == operations@.len(),
                i <= n,
                rest@ == operations@.subrange(i as int, n as int),
                self.wf(),
                self.applied() == old(self).applied(),
                self.ops() == merged(old(self).ops(), operations@.subrange(0, i as int)),
                count == merge_count(old(self).ops(), operations@.subrange(0, i as int)),
                count <= i,
            decreases n - i,
        {
            assert(operations@.subrange(0, i + 1).drop_last() =~= operations@.subrange(0, i as int));
            let op = rest.remove(0);
            assert(rest@ =~= operations@.subrange(i + 1, n as int));
            match self.add_operation(op) {
                Ok(true) => {
                    count += 1;
                },
                _ => {},
            }
            i += 1;
        }
        assert(operations@.subrange(0, n as int) =~= operations@);
        Ok(count)
    }

    /// The write that applies `op`: nothing when its id is recorded as
    /// written already; an error for a `Hash` operation without a field.
    /// The caller performs the write, then records it with `mark_applied`.
    pub fn apply_to_storage(&self, op: &SignedOperation) -> (r: Result<Option<StorageWrite>, ApplyError>)
        ensures
            r matches Ok(Some(w)) ==> apply_outcome(self.applied(), *op).0 == Ok::<Option<WriteView>, ApplyError>(Some(w@)),
            r matches Ok(None) ==> apply_outcome(self.applied(), *op).0 == Ok::<Option<WriteView>, ApplyError>(None),
            r matches Err(e) ==> apply_outcome(self.applied(), *op).0 == Err::<Option<WriteView>, ApplyError>(e),
    {
        if self.is_applied(op.op_id.as_str()) {
            return Ok(None);
        }
        let lower = lowercase(op.store_type.as_str());
        let write = storage_write_for(op, lower.as_str())?;
        Ok(Some(write))
    }

    /// Like `apply_to_storage`, counting the id as written at once: used for
    /// a pass that must not hand out two writes for one id.
    fn take_write(&mut self, op: &SignedOperation) -> (r: Result<Option<StorageWrite>, ApplyError>)
        ensures
            final(self).ops() == old(self).ops(),
            final(self).applied() == apply_outcome(old(self).applied(), *op).1,
            r matches Ok(Some(w)) ==> apply_outcome(old(self).applied(), *op).0 == Ok::<Option<WriteView>, ApplyError>(Some(w@)),
            r matches Ok(None) ==> apply_outcome(old(self).applied(), *op).0 == Ok::<Option<WriteView>, ApplyError>(None),
            r matches Err(e) ==> apply_outcome(old(self).applied(), *op).0 == Err::<Option<WriteView>, ApplyError>(e),
    {
        let r = self.apply_to_storage(op);
        match &r {
            Ok(Some(_)) => self.mark_applied(op.op_id.as_str()),
            _ => {},
        }
        r
    }

    /// The writes for every operation in the map whose id is not recorded as
    /// written, at most one per id; an operation whose write cannot be made
    /// is skipped. The caller performs them and records each one done.
    pub fn apply_all_to_storage(&self) -> (r: Vec<StorageWrite>)
        ensures
            r@.map_values(|w: StorageWrite| w@) == apply_all_outcome(self.ops(), self.applied()).0,
    {
        let mut scratch = SyncStore { operations: Vec::new(), applied_ops: Vec::new() };
        let m = self.applied_ops.len();
        let mut j: usize = 0;
        while j < m
            invariant
                m == self.applied_ops@.len(),
                j <= m,
                scratch.applied() == self.applied().subrange(0, j as int),
            decreases m - j,
        {
            let ghost before = scratch.applied_ops@;
            scratch.applied_ops.push(self.applied_ops[j].clone());
            assert(text::views(scratch.applied_ops@) =~= text::views(before).push(self.applied_ops@[j as int]@));
            assert(self.applied()[j as int] == self.applied_ops@[j as int]@);
            assert(scratch.applied() =~= self.applied().subrange(0, j + 1));
            j += 1;
        }
        assert(self.applied().subrange(0, m as int) =~= self.applied());
        let mut out: Vec<StorageWrite> = Vec::new();
        let n = self.operations.len();
        let mut i: usize = 0;
        while i < n
            invariant
                n == self.operations@.len(),
                i <= n,
                (out@.map_values(|w: StorageWrite| w@), scratch.applied()) == apply_all_outcome(
                    self.ops().subrange(0, i as int),
                    self.applied(),
                ),
            decreases n - i,
        {
            assert(self.ops().subrange(0, i + 1).drop_last() =~= self.ops().subrange(0, i as int));
            let ghost before = out@;
            match scratch.take_write(&self.operations[i]) {
                Ok(Some(w)) => {
                    out.push(w);
                    assert(out@.map_values(|w: StorageWrite| w@) =~= before.map_values(|w: StorageWrite| w@).push(w@));
                },
                _ => {},
            }
            i += 1;
        }
        assert(self.ops().subrange(0, n as int) =~= self.ops());
        out
    }
}

proof fn lemma_put_elements(ops: Seq<SignedOperation>, op: SignedOperation, x: SignedOperation)
    requires
        put_op(ops, op).contains(x),
    ensures
        ops.contains(x) || x == op,
{
    let q = put_op(ops, op);
    let i = choose|i: int| 0 <= i < q.len() && q[i] == x;
    if has_key(ops, crdt_key_of(op)) {
        if i != key_index(ops, crdt_key_of(op)) {
            assert(ops[i] == x);
        }
    } else if i < ops.len() {
        assert(ops[i] == x);
    }
}

/// An operation whose signature holds in neither form, or whose database
/// is not bound to its key, never enters the map: after merging a batch,
/// every operation held was held before or is one of the batch that is
/// bound and whose signature holds.
pub proof fn lemma_signature_discipline(ops: Seq<SignedOperation>, incoming: Seq<SignedOperation>, x: SignedOperation)
    requires
        merged(ops, incoming).contains(x),
    ensures
        ops.contains(x) || (incoming.contains(x) && operation_verified(x) && db_name_bound(x)),
    decreases incoming.len(),
{
    if incoming.len() > 0 {
        let d = incoming.drop_last();
        let m = merged(ops, d);
        let last = incoming.last();
        if operation_admitted(last) && lww_accepts(m, last) {
            lemma_put_elements(m, last, x);
        }
        if m.contains(x) {
            lemma_signature_discipline(ops, d, x);
            if d.contains(x) {
                let j = choose|j: int| 0 <= j < d.len() && d[j] == x;
                assert(incoming[j] == x);
            }
        } else {
            assert(incoming[incoming.len() - 1] == x);
        }
    }
}

/// Whether `x` may end up as the entry for key `k` after merging `incoming`
/// into `ops`: the entry held before, or a bound, validly signed operation
/// of the batch for that key.
pub open spec fn merge_candidate(ops: Seq<SignedOperation>, incoming: Seq<SignedOperation>, k: Seq<char>, x: SignedOperation) -> bool {
    entry(ops, k) == Some(x) || (incoming.contains(x) && operation_admitted(x) && crdt_key_of(x) == k)
}

proof fn lemma_entry_key(ops: Seq<SignedOperation>, k: Seq<char>)
    ensures
        entry(ops, k) matches Some(x) ==> crdt_key_of(x) == k,
{
}

/// After a merge the entry for a key is the greatest of its candidates.
proof fn lemma_merged_entry_max(ops: Seq<SignedOperation>, incoming: Seq<SignedOperation>, k: Seq<char>)
    requires
        unique_keys(ops),
    ensures
        unique_keys(merged(ops, incoming)),
        entry(merged(ops, incoming), k) is None ==> entry(ops, k) is None && forall|x: SignedOperation|
            !merge_candidate(ops, incoming, k, x),
        entry(merged(ops, incoming), k) matches Some(m) ==> merge_candidate(ops, incoming, k, m)
            && forall|x: SignedOperation| merge_candidate(ops, incoming, k, x) ==> !op_before(m, x),
    decreases incoming.len(),
{
    lemma_entry_key(ops, k);
    if incoming.len() == 0 {
        if let Some(e) = entry(ops, k) {
            lemma_op_before_irreflexive(e);
        }
    } else {
        let d = incoming.drop_last();
        let y = incoming.last();
        lemma_merged_entry_max(ops, d, k);
        let m = merged(ops, d);
        let big = merged(ops, incoming);
        lemma_put_keeps_unique(m, y);
        lemma_entry_key(m, crdt_key_of(y));
        lemma_entry_key(m, k);
        assert(incoming[incoming.len() - 1] == y);
        assert forall|x: SignedOperation| merge_candidate(ops, d, k, x) implies merge_candidate(ops, incoming, k, x) by {
            if d.contains(x) {
                let i = choose|i: int| 0 <= i < d.len() && d[i] == x;
                assert(incoming[i] == x);
            }
        }
        assert forall|x: SignedOperation| merge_candidate(ops, incoming, k, x) && x != y implies merge_candidate(ops, d, k, x) by {
            if incoming.contains(x) && entry(ops, k) != Some(x) {
                let i = choose|i: int| 0 <= i < incoming.len() && incoming[i] == x;
                assert(i < d.len());
                assert(d[i] == x);
            }
        }
        if operation_admitted(y) && lww_accepts(m, y) {
            assert(big == put_op(m, y));
            if crdt_key_of(y) == k {
                assert(entry(big, k) == Some(y));
                assert(merge_candidate(ops, incoming, k, y));
                lemma_op_before_irreflexive(y);
                assert forall|x: SignedOperation| merge_candidate(ops, incoming, k, x) implies !op_before(y, x) by {
                    if x != y {
                        assert(merge_candidate(ops, d, k, x));
                        let e = entry(m, k)->0;
                        if op_before(y, x) {
                            lemma_op_before_transitive(e, y, x);
                        }
                    }
                }
            } else {
                assert(entry(big, k) == entry(m, k));
                assert forall|x: SignedOperation| merge_candidate(ops, incoming, k, x) implies merge_candidate(ops, d, k, x) by {
                    if x == y && entry(ops, k) != Some(x) {
                        assert(crdt_key_of(x) == k);
                    }
                }
            }
        } else {
            assert(big == m);
            if operation_admitted(y) && crdt_key_of(y) == k {
                assert(entry(m, k) is Some);
                let e = entry(m, k)->0;
                assert(!op_before(e, y));
                assert forall|x: SignedOperation| merge_candidate(ops, incoming, k, x) implies !op_before(e, x) by {
                    if x != y {
                        assert(merge_candidate(ops, d, k, x));
                    }
                }
            } else {
                assert forall|x: SignedOperation| merge_candidate(ops, incoming, k, x) implies merge_candidate(ops, d, k, x) by {
                    if x == y && entry(ops, k) != Some(x) {
                        assert(operation_admitted(y) && crdt_key_of(y) == k);
                    }
                }
            }
        }
    }
}

/// Merging the same operations in any order, starting from the same map,
/// leaves the same entry for every CRDT key. Within one key, operations
/// (and the entry held before) that share a timestamp and an op_id are
/// taken to be deliveries of one operation.
pub proof fn lemma_merge_order_independent(ops: Seq<SignedOperation>, a: Seq<SignedOperation>, b: Seq<SignedOperation>, k: Seq<char>)
    requires
        unique_keys(ops),
        a.to_multiset() == b.to_multiset(),
        forall|x: SignedOperation, y: SignedOperation|
            merge_candidate(ops, a, k, x) && merge_candidate(ops, a, k, y) && x.timestamp == y.timestamp
                && x.op_id@ == y.op_id@ ==> x == y,
    ensures
        entry(merged(ops, a), k) == entry(merged(ops, b), k),
{
    broadcast use vstd::seq_lib::group_to_multiset_ensures;
    lemma_merged_entry_max(ops, a, k);
    lemma_merged_entry_max(ops, b, k);
    assert forall|x: SignedOperation| merge_candidate(ops, a, k, x) <==> merge_candidate(ops, b, k, x) by {
        assert(a.contains(x) <==> a.to_multiset().count(x) > 0);
        assert(b.contains(x) <==> b.to_multiset().count(x) > 0);
    }
    match (entry(merged(ops, a), k), entry(merged(ops, b), k)) {
        (Some(x1), Some(x2)) => {
            assert(merge_candidate(ops, a, k, x2));
            assert(!op_before(x1, x2) && !op_before(x2, x1));
            lemma_op_before_total(x1, x2);
        },
        (Some(x1), None) => {
            assert(merge_candidate(ops, b, k, x1));
        },
        (None, Some(x2)) => {
            assert(merge_candidate(ops, a, k, x2));
        },
        (None, None) => {},
    }
}

/// Once the map holds, for an operation's key, an entry that the operation
/// does not beat, it keeps holding one through any later merges.
pub proof fn lemma_entry_stays_ahead(ops: Seq<SignedOperation>, later: Seq<SignedOperation>, op: SignedOperation)
    requires
        unique_keys(ops),
        entry(ops, crdt_key_of(op)) matches Some(e) && !op_before(e, op),
    ensures
        unique_keys(merged(ops, later)),
        entry(merged(ops, later), crdt_key_of(op)) matches Some(e) && !op_before(e, op),
    decreases later.len(),
{
    if later.len() > 0 {
        let d = later.drop_last();
        lemma_entry_stays_ahead(ops, d, op);
        let m = merged(ops, d);
        let x = later.last();
        lemma_put_keeps_unique(m, x);
        if operation_admitted(x) && lww_accepts(m, x) && crdt_key_of(x) == crdt_key_of(op) {
            let e = entry(m, crdt_key_of(op))->0;
            if op_before(x, op) {
                lemma_op_before_transitive(e, x, op);
            }
        }
    }
}

/// Most operations one sync response carries.
pub const MAX_OPS_PER_RESPONSE: usize = 128;

/// Messages of the sync topic.
#[derive(Debug, Clone)]
pub enum SyncMessage {
    /// Ask for every operation, or those at or after a timestamp.
    SyncRequest { requester: String, since_timestamp: Option<i64> },
    /// One chunk of operations for `requester`; `has_more` with a
    /// `ts:{n}` token when the chunk did not hold everything.
    SyncResponse {
        requester: String,
        operations: Vec<SignedOperation>,
        has_more: bool,
        continuation_token: Option<String>,
    },
    /// A new operation to replicate.
    Operation { operation: SignedOperation },
}

/// Ascending in `(timestamp, op_id)` order.
pub open spec fn sorted_ops(s: Seq<SignedOperation>) -> bool {
    forall|i: int, j: int| 0 <= i < j < s.len() ==> !op_before(#[trigger] s[j], #[trigger] s[i])
}

/// Sort operations ascending by `(timestamp, op_id)`.
pub fn sort_operations(v: Vec<SignedOperation>) -> (r: Vec<SignedOperation>)
    ensures
        r@.to_multiset() == v@.to_multiset(),
        sorted_ops(r@),
{
    broadcast use vstd::seq_lib::group_to_multiset_ensures;
    let mut rest = v;
    let mut out: Vec<SignedOperation> = Vec::new();
    while rest.len() > 0
        invariant
            out@.to_multiset().add(rest@.to_multiset()) == v@.to_multiset(),
            sorted_ops(out@),
        decreases rest@.len(),
    {
        let ghost before_rest = rest@;
        let x = rest.pop().unwrap();
        assert(before_rest =~= rest@.push(x));
        let n = out.len();
        let mut p: usize = 0;
        while p < n && !op_less(&x, &out[p])
            invariant
                n == out@.len(),
                p <= n,
                forall|j: int| 0 <= j < p ==> !op_before(x, #[trigger] out@[j]),
            decreases n - p,
        {
            p += 1;
        }
        let ghost old_out = out@;
        out.insert(p, x);
        proof {
            let q = out@;
            assert(q =~= old_out.insert(p as int, x));
            assert forall|i: int, j: int| 0 <= i < j < q.len() implies !op_before(#[trigger] q[j], #[trigger] q[i]) by {
                if j < p {
                    assert(q[i] == old_out[i] && q[j] == old_out[j]);
                } else if j == p {
                    assert(q[i] == old_out[i]);
                } else if i == p {
                    assert(q[j] == old_out[j - 1]);
                    assert(op_before(x, old_out[p as int]));
                    if j - 1 > p {
                        assert(!op_before(old_out[j - 1], old_out[p as int]));
                    }
                    if op_before(old_out[j - 1], x) {
                        lemma_op_before_transitive(old_out[j - 1], x, old_out[p as int]);
                        lemma_op_before_irreflexive(old_out[p as int]);
                    }
                } else if i < p {
                    assert(q[i] == old_out[i] && q[j] == old_out[j - 1]);
                } else {
                    assert(q[i] == old_out[i - 1] && q[j] == old_out[j - 1]);
                }
            }
            vstd::seq_lib::to_multiset_insert(old_out, p as int, x);
            vstd::seq_lib::to_multiset_build(rest@, x);
            assert(out@.to_multiset() == old_out.to_multiset().insert(x));
            assert(before_rest.to_multiset() == rest@.to_multiset().insert(x));
            assert(out@.to_multiset().add(rest@.to_multiset()) =~= old_out.to_multiset().add(before_rest.to_multiset()));
        }
    }
    assert(rest@.to_multiset() =~= vstd::multiset::Multiset::<SignedOperation>::empty());
    assert(out@.to_multiset().add(rest@.to_multiset()) =~= out@.to_multiset());
    out
}

/// The operations a request selects.
pub open spec fn selection(ops: Seq<SignedOperation>, since: Option<i64>) -> Seq<SignedOperation> {
    match since {
        None => ops,
        Some(t) => ops_since(ops, t as int),
    }
}

/// `ts:{n}`.
pub open spec fn token_text(n: i64) -> Seq<char> {
    seq!['t', 's', ':'] + decimal(n as int)
}

/// Whether `msg` answers a request by `requester` over the selected
/// operations: their first chunk in ascending order, with a continuation
/// token at the last one when more remain.
pub open spec fn answers(msg: SyncMessage, requester: String, selected: Seq<SignedOperation>) -> bool {
    match msg {
        SyncMessage::SyncResponse { requester: rq, operations, has_more, continuation_token } => {
            &&& rq == requester
            &&& has_more == (selected.len() > MAX_OPS_PER_RESPONSE)
            &&& exists|sorted: Seq<SignedOperation>|
                #![trigger sorted.to_multiset()]
                sorted.to_multiset() == selected.to_multiset() && sorted_ops(sorted) && operations@ == sorted.take(
                    if selected.len() > MAX_OPS_PER_RESPONSE {
                        MAX_OPS_PER_RESPONSE as int
                    } else {
                        selected.len() as int
                    },
                )
            &&& has_more ==> (continuation_token matches Some(t) && t@ == token_text(operations@.last().timestamp))
            &&& !has_more ==> continuation_token is None
        },
        _ => false,
    }
}

/// The timestamp a response asks to continue from, if it does.
pub open spec fn follow_up(has_more: bool, token: Option<String>) -> Option<i64> {
    match token {
        Some(t) => if has_more && t@.len() >= 3 && t@.take(3) == seq!['t', 's', ':'] {
            crate::text::parsed_i64(t@.skip(3))
        } else {
            None
        },
        None => None,
    }
}

/// A response that continues has a token at least as late as every
/// operation it carries, and the token reads back as that timestamp.
pub proof fn lemma_continuation_monotone(operations: Seq<SignedOperation>)
    requires
        sorted_ops(operations),
        operations.len() > 0,
    ensures
        forall|i: int| 0 <= i < operations.len() ==> (#[trigger] operations[i]).timestamp <= operations.last().timestamp,
        crate::text::parsed_i64(token_text(operations.last().timestamp).skip(3)) == Some(operations.last().timestamp),
{
    let last = operations.len() - 1;
    assert forall|i: int| 0 <= i < operations.len() implies (#[trigger] operations[i]).timestamp <= operations.last().timestamp by {
        if i < last {
            assert(!op_before(operations[last], operations[i]));
        }
    }
    assert(token_text(operations.last().timestamp).skip(3) =~= decimal(operations.last().timestamp as int));
    crate::text::lemma_decimal_round_trip(operations.last().timestamp);
}

/// The map after an operation message, and the write it hands out: the
/// operation is taken only when it is bound, its signature holds and it
/// wins; then its write is handed out unless its id is written already.
pub open spec fn on_operation(ops: Seq<SignedOperation>, applied: Seq<Seq<char>>, op: SignedOperation) -> (Seq<SignedOperation>, Seq<WriteView>) {
    if operation_admitted(op) && lww_accepts(ops, op) {
        (put_op(ops, op), match apply_outcome(applied, op).0 {
            Ok(Some(w)) => seq![w],
            _ => Seq::empty(),
        })
    } else {
        (ops, Seq::empty())
    }
}

/// Delivering an operation again, after any merges in between and whatever
/// has been written since, leaves the map as it is and writes nothing.
pub proof fn lemma_redelivery_is_noop(
    ops: Seq<SignedOperation>,
    applied: Seq<Seq<char>>,
    op: SignedOperation,
    later: Seq<SignedOperation>,
    applied_later: Seq<Seq<char>>,
)
    requires
        unique_keys(ops),
    ensures
        ({
            let m = merged(on_operation(ops, applied, op).0, later);
            on_operation(m, applied_later, op) == (m, Seq::<WriteView>::empty())
        }),
{
    if operation_admitted(op) {
        let ops1 = on_operation(ops, applied, op).0;
        lemma_put_keeps_unique(ops, op);
        lemma_op_before_irreflexive(op);
        lemma_entry_stays_ahead(ops1, later, op);
    }
}

/// The outcome of handling one sync message: the message to send back, if
/// any, and the writes for storage.
pub struct SyncOutcome {
    pub reply: Option<SyncMessage>,
    pub writes: Vec<StorageWrite>,
}

#[derive(Debug, Clone)]
pub struct SyncStats {
    pub total_operations: usize,
    pub local_node_id: String,
}

/// Runs the sync protocol for the local node over its store.
pub struct SyncManager {
    sync_store: SyncStore,
    local_node_id: String,
}

fn token_prefix() -> (r: &'static str)
    ensures
        r@ == seq!['t', 's', ':'],
{
    proof {
        reveal_strlit("ts:");
    }
    "ts:"
}

/// The continuation timestamp a token carries, if it is `ts:{n}`.
fn parse_token(has_more: bool, token: &Option<String>) -> (r: Option<i64>)
    ensures
        r == follow_up(has_more, *token),
{
    match token {
        Some(t) => {
            if !has_more {
                return None;
            }
            let n = t.as_str().unicode_len();
            if n < 3 {
                return None;
            }
            let head = t.as_str().substring_char(0, 3);
            let prefix = String::from_str(token_prefix());
            if String::from_str(head) != prefix {
                return None;
            }
            let tail = t.as_str().substring_char(3, n);
            assert(t@.take(3) =~= t@.subrange(0, 3));
            assert(t@.skip(3) =~= t@.subrange(3, n as int));
            text::parse_i64(tail)
        },
        None => None,
    }
}

impl SyncManager {
    pub closed spec fn store(&self) -> SyncStore {
        self.sync_store
    }

    pub closed spec fn local(&self) -> Seq<char> {
        self.local_node_id@
    }

    pub open spec fn wf(&self) -> bool {
        self.store().wf()
    }

    pub fn new(local_node_id: String) -> (r: Self)
        ensures
            r.wf(),
            r.local() == local_node_id@,
            r.store().ops() == Seq::<SignedOperation>::empty(),
            r.store().applied() == Seq::<Seq<char>>::empty(),
    {
        SyncManager { sync_store: SyncStore::new(), local_node_id }
    }

    pub fn sync_store(&self) -> (r: &SyncStore)
        ensures
            *r == self.store(),
    {
        &self.sync_store
    }

    /// Take in an operation made locally, without checking its signature.
    pub fn add_local_operation(&mut self, op: SignedOperation) -> (r: bool)
        requires
            old(self).wf(),
        ensures
            final(self).wf(),
            final(self).local() == old(self).local(),
            final(self).store().applied() == old(self).store().applied(),
            final(self).store().ops() == after_add(old(self).store().ops(), op, true),
            r == lww_accepts(old(self).store().ops(), op),
    {
        match self.sync_store.add_operation_unverified(op) {
            Ok(b) => b,
            Err(_) => false,
        }
    }

    fn respond(&self, requester: String, since_timestamp: Option<i64>) -> (r: SyncMessage)
        ensures
            answers(r, requester, selection(self.store().ops(), since_timestamp)),
    {
        let selected = match since_timestamp {
            Some(ts) => self.sync_store.get_operations_since(ts),
            None => self.sync_store.get_all_operations(),
        };
        let total = selected.len();
        let ghost sel = selected@;
        let mut chunk = sort_operations(selected);
        let ghost sorted = chunk@;
        proof {
            vstd::seq_lib::to_multiset_len(sel);
            vstd::seq_lib::to_multiset_len(sorted);
        }
        chunk.truncate(MAX_OPS_PER_RESPONSE);
        let has_more = total > chunk.len();
        assert(chunk@ =~= sorted.take(if sel.len() > MAX_OPS_PER_RESPONSE { MAX_OPS_PER_RESPONSE as int } else { sel.len() as int }));
        let continuation_token = if has_more {
            let last = chunk.len() - 1;
            let mut token = String::from_str(token_prefix());
            let ts = text::i64_to_decimal(chunk[last].timestamp);
            token.append(ts.as_str());
            Some(token)
        } else {
            None
        };
        SyncMessage::SyncResponse { requester, operations: chunk, has_more, continuation_token }
    }

    /// Handle one message of the sync topic.
    /// A request is answered from the store. A response for another node is
    /// ignored; one for this node is merged, the writes of operations not
    /// written yet are handed out, and a continuation token asks for the
    /// next chunk. An operation is merged when it is bound to its key, its
    /// signature holds and it wins, and its write handed out. The caller
    /// performs the writes and records each with `mark_applied`.
    pub fn handle_sync_message(&mut self, msg: SyncMessage, from_peer: &str) -> (r: SyncOutcome)
        requires
            old(self).wf(),
        ensures
            final(self).wf(),
            final(self).local() == old(self).local(),
            ({
                let ops0 = old(self).store().ops();
                let applied0 = old(self).store().applied();
                let ops1 = final(self).store().ops();
                let applied1 = final(self).store().applied();
                let writes = r.writes@.map_values(|w: StorageWrite| w@);
                match msg {
                    SyncMessage::SyncRequest { requester, since_timestamp } => {
                        &&& ops1 == ops0 && applied1 == applied0 && writes.len() == 0
                        &&& (r.reply matches Some(m) && answers(m, requester, selection(ops0, since_timestamp)))
                    },
                    SyncMessage::SyncResponse { requester, operations, has_more, continuation_token } => {
                        if requester@ != old(self).local() {
                            ops1 == ops0 && applied1 == applied0 && writes.len() == 0 && r.reply is None
                        } else {
                            &&& ops1 == merged(ops0, operations@)
                            &&& applied1 == applied0
                            &&& writes == apply_all_outcome(ops1, applied0).0
                            &&& match follow_up(has_more, continuation_token) {
                                Some(n) => (r.reply matches Some(SyncMessage::SyncRequest {
                                    requester: rq,
                                    since_timestamp: st,
                                }) && rq@ == old(self).local() && st == Some(n)),
                                None => r.reply is None,
                            }
                        }
                    },
                    SyncMessage::Operation { operation } => {
                        &&& (ops1, writes) == on_operation(ops0, applied0, operation)
                        &&& applied1 == applied0
                        &&& r.reply is None
                    },
                }
            }),
    {
        match msg {
            SyncMessage::SyncRequest { requester, since_timestamp } => {
                let reply = self.respond(requester, since_timestamp);
                let writes: Vec<StorageWrite> = Vec::new();
                assert(writes@.map_values(|w: StorageWrite| w@).len() == 0);
                SyncOutcome { reply: Some(reply), writes }
            },
            SyncMessage::SyncResponse { requester, operations, has_more, continuation_token } => {
                if requester != self.local_node_id {
                    let writes: Vec<StorageWrite> = Vec::new();
                    assert(writes@.map_values(|w: StorageWrite| w@).len() == 0);
                    return SyncOutcome { reply: None, writes };
                }
                let _ = self.sync_store.merge_operations(operations);
                let writes = self.sync_store.apply_all_to_storage();
                let reply = match parse_token(has_more, &continuation_token) {
                    Some(ts) => Some(
                        SyncMessage::SyncRequest {
                            requester: self.local_node_id.clone(),
                            since_timestamp: Some(ts),
                        },
                    ),
                    None => None,
                };
                SyncOutcome { reply, writes }
            },
            SyncMessage::Operation { operation } => {
                let copy = operation.duplicate();
                let mut writes: Vec<StorageWrite> = Vec::new();
                match self.sync_store.add_operation(operation) {
                    Ok(true) => {
                        proof {
                            lemma_put_keeps_unique(old(self).store().ops(), copy);
                        }
                        match self.sync_store.apply_to_storage(&copy) {
                            Ok(Some(w)) => {
                                writes.push(w);
                            },
                            _ => {},
                        }
                    },
                    _ => {},
                }
                proof {
                    let v = writes@.map_values(|w: StorageWrite| w@);
                    if writes@.len() == 1 {
                        assert(v =~= seq![writes@[0]@]);
                    } else {
                        assert(v =~= Seq::<WriteView>::empty());
                    }
                }
                SyncOutcome { reply: None, writes }
            },
        }
    }

    /// Record that the write for an operation has been done.
    pub fn mark_applied(&mut self, op_id: &str)
        ensures
            final(self).local() == old(self).local(),
            final(self).store().ops() == old(self).store().ops(),
            final(self).store().applied() == if old(self).store().applied().contains(op_id@) {
                old(self).store().applied()
            } else {
                old(self).store().applied().push(op_id@)
            },
    {
        self.sync_store.mark_applied(op_id);
    }

    pub fn create_sync_request(&self, since_timestamp: Option<i64>) -> (r: SyncMessage)
        ensures
            (r matches SyncMessage::SyncRequest { requester, since_timestamp: st } && requester@ == self.local()
                && st == since_timestamp),
    {
        SyncMessage::SyncRequest { requester: self.local_node_id.clone(), since_timestamp }
    }

    pub fn create_operation_message(&self, op: SignedOperation) -> (r: SyncMessage)
        ensures
            r == (SyncMessage::Operation { operation: op }),
    {
        SyncMessage::Operation { operation: op }
    }

    pub fn get_stats(&self) -> (r: SyncStats)
        ensures
            r.total_operations == self.store().ops().len(),
            r.local_node_id@ == self.local(),
    {
        SyncStats { total_operations: self.sync_store.operation_count(), local_node_id: self.local_node_id.clone() }
    }
}

} // verus!
