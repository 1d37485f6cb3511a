use sha2::Digest;
use vstd::prelude::*;
use vstd::string::*;
use vstd::utf8::*;

verus! {

/// The views of a sequence of strings, element by element.
pub open spec fn strs_view(v: Seq<String>) -> Seq<Seq<char>> {
    v.map_values(|s: String| s@)
}

/// The eight big-endian bytes of `n`.
pub open spec fn u64_be(n: u64) -> Seq<u8> {
    seq![
        (n >> 56u64) as u8,
        (n >> 48u64) as u8,
        (n >> 40u64) as u8,
        (n >> 32u64) as u8,
        (n >> 24u64) as u8,
        (n >> 16u64) as u8,
        (n >> 8u64) as u8,
        n as u8,
    ]
}

/// One part of the hashed text: the length of its UTF-8 bytes as eight
/// big-endian bytes, followed by those bytes.
pub open spec fn field(part: Seq<char>) -> Seq<u8> {
    u64_be(encode_utf8(part).len() as u64) + encode_utf8(part)
}

/// The fields of all parts, one after the other.
pub open spec fn fields(parts: Seq<Seq<char>>) -> Seq<u8>
    decreases parts.len(),
{
    if parts.len() == 0 {
        Seq::empty()
    } else {
        field(parts[0]) + fields(parts.drop_first())
    }
}

/// Every part has fewer UTF-8 bytes than `u64` can count (as every string
/// in memory does).
pub open spec fn fits_u64(parts: Seq<Seq<char>>) -> bool {
    forall|i: int| 0 <= i < parts.len() ==> #[trigger] encode_utf8(parts[i]).len() <= u64::MAX
}

/// The bytes that are hashed to identify a transaction: the field of its
/// data, then the field of each parent id, in order. Every part carries its
/// length, so that the bytes determine the data and the parents.
pub open spec fn preimage(data: Seq<char>, parents: Seq<Seq<char>>) -> Seq<u8> {
    fields(seq![data] + parents)
}

proof fn lemma_u64_be_injective(a: u64, b: u64)
    requires
        u64_be(a) == u64_be(b),
    ensures
        a == b,
{
    assert(u64_be(a)[0] == u64_be(b)[0]);
    assert(u64_be(a)[1] == u64_be(b)[1]);
    assert(u64_be(a)[2] == u64_be(b)[2]);
    assert(u64_be(a)[3] == u64_be(b)[3]);
    assert(u64_be(a)[4] == u64_be(b)[4]);
    assert(u64_be(a)[5] == u64_be(b)[5]);
    assert(u64_be(a)[6] == u64_be(b)[6]);
    assert(u64_be(a)[7] == u64_be(b)[7]);
    assert(a == b) by (bit_vector)
        requires
            (a >> 56u64) as u8 == (b >> 56u64) as u8,
            (a >> 48u64) as u8 == (b >> 48u64) as u8,
            (a >> 40u64) as u8 == (b >> 40u64) as u8,
            (a >> 32u64) as u8 == (b >> 32u64) as u8,
            (a >> 24u64) as u8 == (b >> 24u64) as u8,
            (a >> 16u64) as u8 == (b >> 16u64) as u8,
            (a >> 8u64) as u8 == (b >> 8u64) as u8,
            a as u8 == b as u8,
    ;
}

proof fn lemma_utf8_injective(a: Seq<char>, b: Seq<char>)
    requires
        encode_utf8(a) == encode_utf8(b),
    ensures
        a == b,
{
    encode_utf8_decode_utf8(a);
    encode_utf8_decode_utf8(b);
}

/// Different sequences of parts have different fields.
pub proof fn lemma_fields_injective(a: Seq<Seq<char>>, b: Seq<Seq<char>>)
    requires
        fits_u64(a),
        fits_u64(b),
        fields(a) == fields(b),
    ensures
        a == b,
    decreases a.len(),
{
    if a.len() == 0 {
        if b.len() > 0 {
            assert(fields(b).len() >= 8);
        }
        assert(a =~= b);
    } else if b.len() == 0 {
        assert(fields(a).len() >= 8);
    } else {
        let ea = encode_utf8(a[0]);
        let eb = encode_utf8(b[0]);
        let fa = fields(a);
        let fb = fields(b);
        assert(ea.len() <= u64::MAX);
        assert(eb.len() <= u64::MAX);
        assert(fa.subrange(0, 8) =~= u64_be(ea.len() as u64));
        assert(fb.subrange(0, 8) =~= u64_be(eb.len() as u64));
        lemma_u64_be_injective(ea.len() as u64, eb.len() as u64);
        assert(ea.len() == eb.len());
        let n = 8 + ea.len();
        assert(fa.subrange(8, n as int) =~= ea);
        assert(fb.subrange(8, n as int) =~= eb);
        lemma_utf8_injective(a[0], b[0]);
        assert(fa.subrange(n as int, fa.len() as int) =~= fields(a.drop_first()));
        assert(fb.subrange(n as int, fb.len() as int) =~= fields(b.drop_first()));
        assert forall|i: int| 0 <= i < a.drop_first().len() implies #[trigger] encode_utf8(
            a.drop_first()[i],
        ).len() <= u64::MAX by {
            assert(a.drop_first()[i] == a[i + 1]);
        }
        assert forall|i: int| 0 <= i < b.drop_first().len() implies #[trigger] encode_utf8(
            b.drop_first()[i],
        ).len() <= u64::MAX by {
            assert(b.drop_first()[i] == b[i + 1]);
        }
        lemma_fields_injective(a.drop_first(), b.drop_first());
        assert(a =~= seq![a[0]] + a.drop_first());
        assert(b =~= seq![b[0]] + b.drop_first());
    }
}

proof fn lemma_fields_push(parts: Seq<Seq<char>>, part: Seq<char>)
    ensures
        fields(parts.push(part)) == fields(parts) + field(part),
    decreases parts.len(),
{
    if parts.len() == 0 {
        assert(parts.push(part).drop_first() =~= Seq::<Seq<char>>::empty());
        assert(fields(Seq::<Seq<char>>::empty()) =~= Seq::<u8>::empty());
        assert(parts.push(part)[0] == part);
        assert(fields(parts.push(part)) =~= field(part));
        assert(fields(parts) =~= Seq::<u8>::empty());
    } else {
        assert(parts.push(part).drop_first() =~= parts.drop_first().push(part));
        lemma_fields_push(parts.drop_first(), part);
        assert(fields(parts.push(part)) =~= fields(parts) + field(part));
    }
}

/// Different (data, parents) pairs have different preimages: the hashed
/// bytes determine the data and every parent id.
pub proof fn lemma_preimage_injective(
    data1: Seq<char>,
    parents1: Seq<Seq<char>>,
    data2: Seq<char>,
    parents2: Seq<Seq<char>>,
)
    requires
        fits_u64(seq![data1] + parents1),
        fits_u64(seq![data2] + parents2),
        preimage(data1, parents1) == preimage(data2, parents2),
    ensures
        data1 == data2,
        parents1 == parents2,
{
    lemma_fields_injective(seq![data1] + parents1, seq![data2] + parents2);
    assert((seq![data1] + parents1)[0] == data1);
    assert((seq![data2] + parents2)[0] == data2);
    assert((seq![data1] + parents1).drop_first() =~= parents1);
    assert((seq![data2] + parents2).drop_first() =~= parents2);
}

/// The lower-case hexadecimal digits.
pub open spec fn hex_digits() -> Seq<char> {
    seq!['0', '1', '2', '3', '4', '5', '6', '7', '8', '9', 'a', 'b', 'c', 'd', 'e', 'f']
}

/// Lower-case hexadecimal rendering of bytes: two digits per byte, high
/// nibble first, no separators.
pub open spec fn hex_lower(bytes: Seq<u8>) -> Seq<char>
    decreases bytes.len(),
{
    if bytes.len() == 0 {
        Seq::empty()
    } else {
        hex_lower(bytes.drop_last()) + seq![
            hex_digits()[(bytes.last() / 16) as int],
            hex_digits()[(bytes.last() % 16) as int],
        ]
    }
}

proof fn lemma_hex_digit_injective(a: u8, b: u8)
    requires
        a < 16,
        b < 16,
        hex_digits()[a as int] == hex_digits()[b as int],
    ensures
        a == b,
{
    let d = hex_digits();
    assert(d[0] == '0' && d[1] == '1' && d[2] == '2' && d[3] == '3' && d[4] == '4' && d[5] == '5'
        && d[6] == '6' && d[7] == '7' && d[8] == '8' && d[9] == '9' && d[10] == 'a' && d[11] == 'b'
        && d[12] == 'c' && d[13] == 'd' && d[14] == 'e' && d[15] == 'f');
}

/// Different byte strings have different hexadecimal renderings.
pub proof fn lemma_hex_lower_injective(a: Seq<u8>, b: Seq<u8>)
    requires
        hex_lower(a) == hex_lower(b),
    ensures
        a == b,
    decreases a.len(),
{
    lemma_hex_lower_len(a);
    lemma_hex_lower_len(b);
    if a.len() > 0 {
        let ha = hex_lower(a);
        let x = a.last();
        let y = b.last();
        assert(ha[ha.len() - 2] == hex_digits()[(x / 16) as int]);
        assert(ha[ha.len() - 1] == hex_digits()[(x % 16) as int]);
        assert(hex_lower(b)[ha.len() - 2] == hex_digits()[(y / 16) as int]);
        assert(hex_lower(b)[ha.len() - 1] == hex_digits()[(y % 16) as int]);
        lemma_hex_digit_injective((x / 16) as u8, (y / 16) as u8);
        lemma_hex_digit_injective((x % 16) as u8, (y % 16) as u8);
        assert(x == y);
        assert(hex_lower(a.drop_last()) =~= ha.subrange(0, ha.len() - 2));
        assert(hex_lower(b.drop_last()) =~= hex_lower(b).subrange(0, ha.len() - 2));
        lemma_hex_lower_injective(a.drop_last(), b.drop_last());
        assert(a =~= a.drop_last().push(x));
        assert(b =~= b.drop_last().push(y));
    } else {
        assert(a =~= b);
    }
}

proof fn lemma_hex_lower_len(a: Seq<u8>)
    ensures
        hex_lower(a).len() == 2 * a.len(),
    decreases a.len(),
{
    if a.len() > 0 {
        lemma_hex_lower_len(a.drop_last());
    }
}

/// Every character is a lower-case hexadecimal digit.
pub open spec fn is_lower_hex(s: Seq<char>) -> bool {
    forall|i: int| 0 <= i < s.len() ==> hex_digits().contains(#[trigger] s[i])
}

/// The SHA-256 digest of a byte string.
pub uninterp spec fn sha256(message: Seq<u8>) -> Seq<u8>;

/// The id of the transaction with the given data and parents: the SHA-256
/// digest of their preimage, written in lower-case hexadecimal.
pub open spec fn transaction_id(data: Seq<char>, parents: Seq<Seq<char>>) -> Seq<char> {
    hex_lower(sha256(preimage(data, parents)))
}

/// Transactions with different data or parents get different ids, as long
/// as SHA-256 does not collide on their two preimages.
pub proof fn lemma_transaction_id_unique(
    data1: Seq<char>,
    parents1: Seq<Seq<char>>,
    data2: Seq<char>,
    parents2: Seq<Seq<char>>,
)
    requires
        data1 != data2 || parents1 != parents2,
        fits_u64(seq![data1] + parents1),
        fits_u64(seq![data2] + parents2),
        sha256(preimage(data1, parents1)) == sha256(preimage(data2, parents2)) ==> preimage(
            data1,
            parents1,
        ) == preimage(data2, parents2),
    ensures
        transaction_id(data1, parents1) != transaction_id(data2, parents2),
{
    if transaction_id(data1, parents1) == transaction_id(data2, parents2) {
        lemma_hex_lower_injective(
            sha256(preimage(data1, parents1)),
            sha256(preimage(data2, parents2)),
        );
        lemma_preimage_injective(data1, parents1, data2, parents2);
    }
}

/// Calls `sha2::Sha256::digest` (the `Digest` trait's one-shot hash), which
/// hashes the bytes as one `update` of a fresh hasher followed by `finalize`.
/// Claimed: the result is `sha256` of the input, and it has the 32 bytes of
/// `Sha256`'s output size.
#[verifier::external_body]
fn sha256_digest(message: &[u8]) -> (digest: Vec<u8>)
    ensures
        digest@ == sha256(message@),
        digest@.len() == 32,
{
    sha2::Sha256::digest(message).to_vec()
}

/// `String::push` appends one character at the end of the string.
pub assume_specification[ std::string::String::push ](string: &mut String, ch: char)
    ensures
        final(string)@ == old(string)@.push(ch),
;

/// Appends the field of `part`: its UTF-8 length as eight big-endian bytes,
/// then its UTF-8 bytes.
fn append_field(bytes: &mut Vec<u8>, part: &str)
    ensures
        final(bytes)@ == old(bytes)@ + field(part@),
        encode_utf8(part@).len() <= u64::MAX,
{
    let b = part.as_bytes();
    let n: u64 = b.len() as u64;
    bytes.push((n >> 56) as u8);
    bytes.push((n >> 48) as u8);
    bytes.push((n >> 40) as u8);
    bytes.push((n >> 32) as u8);
    bytes.push((n >> 24) as u8);
    bytes.push((n >> 16) as u8);
    bytes.push((n >> 8) as u8);
    bytes.push(n as u8);
    let ghost head = bytes@;
    assert(head =~= old(bytes)@ + u64_be(encode_utf8(part@).len() as u64));
    let m = b.len();
    for i in 0..m
        invariant
            m == b@.len(),
            b@ == encode_utf8(part@),
            bytes@ == head + b@.take(i as int),
    {
        bytes.push(b[i]);
        assert(b@.take(i + 1) =~= b@.take(i as int).push(b@[i as int]));
        assert(bytes@ =~= head + b@.take(i + 1));
    }
    assert(b@.take(m as int) =~= b@);
    assert(bytes@ =~= old(bytes)@ + field(part@));
}

/// The bytes that identify a transaction: the length-prefixed field of
/// `data`, then that of every parent id.
pub fn hash_preimage(data: &String, parents: &Vec<String>) -> (bytes: Vec<u8>)
    ensures
        bytes@ == preimage(data@, strs_view(parents@)),
        fits_u64(seq![data@] + strs_view(parents@)),
{
    let mut bytes: Vec<u8> = Vec::new();
    append_field(&mut bytes, data.as_str());
    proof {
        let one = seq![data@];
        assert(one.drop_first() =~= Seq::<Seq<char>>::empty());
        assert(fields(Seq::<Seq<char>>::empty()) =~= Seq::<u8>::empty());
        assert(one[0] == data@);
        assert(fields(one) =~= field(data@));
        assert(one + strs_view(parents@).take(0) =~= one);
        assert(one[0] == data@);
    }
    let n = parents.len();
    for i in 0..n
        invariant
            n == parents@.len(),
            bytes@ == fields(seq![data@] + strs_view(parents@).take(i as int)),
            fits_u64(seq![data@] + strs_view(parents@).take(i as int)),
    {
        let ghost before = seq![data@] + strs_view(parents@).take(i as int);
        append_field(&mut bytes, parents[i].as_str());
        proof {
            lemma_fields_push(before, parents@[i as int]@);
            assert(before.push(parents@[i as int]@) =~= seq![data@] + strs_view(parents@).take(
                i + 1,
            ));
            assert forall|j: int| 0 <= j < before.push(parents@[i as int]@).len() implies #[trigger] encode_utf8(
                before.push(parents@[i as int]@)[j],
            ).len() <= u64::MAX by {
                if j < before.len() {
                    assert(before.push(parents@[i as int]@)[j] == before[j]);
                }
            }
        }
    }
    assert(strs_view(parents@).take(n as int) =~= strs_view(parents@));
    bytes
}

/// Lower-case hexadecimal rendering of `bytes`, as `{:x}` formats a digest.
pub fn hex_encode(bytes: &[u8]) -> (text: String)
    ensures
        text@ == hex_lower(bytes@),
        text@.len() == 2 * bytes@.len(),
        is_lower_hex(text@),
{
    let digits: [char; 16] = ['0', '1', '2', '3', '4', '5', '6', '7', '8', '9', 'a', 'b', 'c', 'd', 'e', 'f'];
    assert(digits@ =~= hex_digits());
    let mut text = String::new();
    let n = bytes.len();
    for i in 0..n
        invariant
            n == bytes@.len(),
            digits@ == hex_digits(),
            text@ == hex_lower(bytes@.take(i as int)),
            text@.len() == 2 * i,
            is_lower_hex(text@),
    {
        let b = bytes[i];
        let hi = digits[(b / 16) as usize];
        let lo = digits[(b % 16) as usize];
        text.push(hi);
        text.push(lo);
        assert(bytes@.take(i + 1).drop_last() =~= bytes@.take(i as int));
        assert(hex_digits().contains(hi));
        assert(hex_digits().contains(lo));
    }
    assert(bytes@.take(n as int) =~= bytes@);
    text
}


/// A copy of every string of `v`, in order.
pub fn clone_strings(v: &Vec<String>) -> (res: Vec<String>)
    ensures
        res@ == v@,
{
    let mut res: Vec<String> = Vec::new();
    let n = v.len();
    for i in 0..n
        invariant
            n == v@.len(),
            res@ == v@.take(i as int),
    {
        res.push(v[i].clone());
        assert(res@ =~= v@.take(i + 1));
    }
    assert(v@.take(n as int) =~= v@);
    res
}

/// A transaction of the DAG: its id is derived from its data and its parents.
#[derive(Debug)]
pub struct Transaction {
    pub id: String,
    pub data: String,
    /// Ids of the parent transactions (the DAG edges).
    pub parents: Vec<String>,
}

/// The mathematical value of a transaction.
pub struct TransactionView {
    pub id: Seq<char>,
    pub data: Seq<char>,
    pub parents: Seq<Seq<char>>,
}

impl View for Transaction {
    type V = TransactionView;

    open spec fn view(&self) -> TransactionView {
        TransactionView { id: self.id@, data: self.data@, parents: strs_view(self.parents@) }
    }
}

impl Clone for Transaction {
    fn clone(&self) -> (res: Self)
        ensures
            res@ == self@,
    {
        Transaction { id: self.id.clone(), data: self.data.clone(), parents: clone_strings(&self.parents) }
    }
}

impl TransactionView {
    /// The id is the one that `Transaction::new` derives from the data and parents.
    pub open spec fn has_derived_id(self) -> bool {
        self.id == transaction_id(self.data, self.parents)
    }
}

impl Transaction {
    /// Builds a transaction; its id is the lower-case hex SHA-256 digest of
    /// the data and then each parent id, every one prefixed with its length,
    /// so that different data or parents give different ids
    /// (`lemma_transaction_id_unique`).
    pub fn new(data: String, parents: Vec<String>) -> (t: Transaction)
        ensures
            t.data@ == data@,
            t.parents@ == parents@,
            t.id@ == transaction_id(data@, strs_view(parents@)),
            t@.has_derived_id(),
            fits_u64(seq![data@] + strs_view(parents@)),
            t.id@.len() == 64,
            is_lower_hex(t.id@),
    {
        let bytes = hash_preimage(&data, &parents);
        let digest = sha256_digest(bytes.as_slice());
        let id = hex_encode(digest.as_slice());
        Transaction { id, data, parents }
    }
}

} // verus!
