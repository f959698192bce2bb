//! Reed-Solomon forward error correction over GF(2^8), through the
//! `reed-solomon-erasure` crate.

use vstd::prelude::*;

verus! {

#[verifier::external_type_specification]
#[verifier::external_body]
pub struct ExRsError(reed_solomon_erasure::Error);

/// Most shards (data + parity) one GF(2^8) code word can hold.
pub const RS_MAX_SHARDS: usize = 256;

/// The parity shards `reed-solomon-erasure` computes for `data` with a
/// `data_count + parity_count` code.
pub uninterp spec fn rs_parity_shards(data_count: nat, parity_count: nat, data: Seq<Seq<u8>>) -> Seq<Seq<u8>>;

/// The full code word of `data`: the data shards followed by their parity.
pub open spec fn rs_codeword(parity_count: nat, data: Seq<Seq<u8>>) -> Seq<Seq<u8>> {
    data + rs_parity_shards(data.len(), parity_count, data)
}

pub open spec fn all_len(s: Seq<Seq<u8>>, n: nat) -> bool {
    forall|i: int| 0 <= i < s.len() ==> (#[trigger] s[i]).len() == n
}

pub open spec fn shard_views(v: Seq<Vec<u8>>) -> Seq<Seq<u8>> {
    v.map_values(|s: Vec<u8>| s@)
}

pub open spec fn opt_shard_views(v: Seq<Option<Vec<u8>>>) -> Seq<Option<Seq<u8>>> {
    v.map_values(
        |s: Option<Vec<u8>>|
            match s {
                Some(x) => Some(x@),
                None => None,
            },
    )
}

pub open spec fn count_present(s: Seq<Option<Seq<u8>>>) -> nat
    decreases s.len(),
{
    if s.len() == 0 {
        0
    } else {
        count_present(s.drop_last()) + if s.last() is Some { 1nat } else { 0nat }
    }
}

pub proof fn lemma_count_present_bound(s: Seq<Option<Seq<u8>>>)
    ensures
        count_present(s) <= s.len(),
    decreases s.len(),
{
    if s.len() > 0 {
        lemma_count_present_bound(s.drop_last());
    }
}

/// Filling an empty slot adds one present shard.
pub proof fn lemma_count_present_fill(s: Seq<Option<Seq<u8>>>, i: int, x: Seq<u8>)
    requires
        0 <= i < s.len(),
        s[i] is None,
    ensures
        count_present(s.update(i, Some(x))) == count_present(s) + 1,
        count_present(s) < s.len(),
    decreases s.len(),
{
    let t = s.update(i, Some(x));
    if i == s.len() - 1 {
        assert(t.drop_last() =~= s.drop_last());
        lemma_count_present_bound(s.drop_last());
    } else {
        assert(t.drop_last() =~= s.drop_last().update(i, Some(x)));
        lemma_count_present_fill(s.drop_last(), i, x);
    }
}

pub proof fn lemma_count_present_none(n: nat)
    ensures
        count_present(Seq::new(n, |i: int| None::<Seq<u8>>)) == 0,
    decreases n,
{
    if n > 0 {
        assert(Seq::new(n, |i: int| None::<Seq<u8>>).drop_last() =~= Seq::new((n - 1) as nat, |i: int| None::<Seq<u8>>));
        lemma_count_present_none((n - 1) as nat);
    }
}

/// Present shards are non-empty and all of one length.
pub open spec fn present_uniform(s: Seq<Option<Seq<u8>>>) -> bool {
    forall|i: int, j: int|
        0 <= i < s.len() && 0 <= j < s.len() && s[i] is Some && s[j] is Some ==> {
            &&& (#[trigger] s[i])->0.len() > 0
            &&& s[i]->0.len() == (#[trigger] s[j])->0.len()
        }
}

/// The filled-in slots `reed-solomon-erasure` reconstructs from `shards`
/// (`None` = lost) with a `data_count + parity_count` code.
pub uninterp spec fn rs_reconstructed(data_count: nat, parity_count: nat, shards: Seq<Option<Seq<u8>>>) -> Seq<Seq<u8>>;

pub open spec fn some_all(s: Seq<Seq<u8>>) -> Seq<Option<Seq<u8>>> {
    s.map_values(|x: Seq<u8>| Some(x))
}

/// Every present shard equals the shard at the same position of `word`.
pub open spec fn agrees_with(s: Seq<Option<Seq<u8>>>, word: Seq<Seq<u8>>) -> bool {
    &&& s.len() == word.len()
    &&& forall|i: int| 0 <= i < s.len() && (#[trigger] s[i]) is Some ==> s[i]->0 == word[i]
}

/// Holder of a `reed_solomon_erasure::galois_8::ReedSolomon` instance (Verus
/// cannot declare that generic type, so the holder is opaque).
#[verifier::external_body]
pub struct RsHandle {
    rs: reed_solomon_erasure::galois_8::ReedSolomon,
}

/// A Reed-Solomon codec together with the shard counts it was built for.
/// The fields are private and set together by `RsCodec::new` only, from the
/// same arguments the instance was created with.
pub struct RsCodec {
    handle: RsHandle,
    data_count: usize,
    parity_count: usize,
}

/// `reed_solomon_erasure::galois_8::ReedSolomon::new`: succeeds exactly when
/// both counts are positive and their sum fits GF(2^8) (at most 256). The
/// library adds the counts before it compares them, so each is kept to at
/// most 256 here, where the sum cannot overflow.
#[verifier::external_body]
fn rs_new(data_shards: usize, parity_shards: usize) -> (r: Result<RsHandle, reed_solomon_erasure::Error>)
    requires
        data_shards <= RS_MAX_SHARDS,
        parity_shards <= RS_MAX_SHARDS,
    ensures
        r is Ok <==> (data_shards > 0 && parity_shards > 0 && data_shards + parity_shards
            <= RS_MAX_SHARDS),
{
    match reed_solomon_erasure::galois_8::ReedSolomon::new(data_shards, parity_shards) {
        Ok(rs) => Ok(RsHandle { rs }),
        Err(e) => Err(e),
    }
}

/// `ReedSolomon::encode` on `codec`'s code word. It fails, touching nothing,
/// unless there are exactly data + parity shards, the first is non-empty and
/// all have its length; then the data shards are kept and the parity slots
/// are overwritten, in place, with `rs_parity_shards` of the data shards.
/// No shard changes length (the library writes through slices).
#[verifier::external_body]
fn rs_encode(codec: &RsCodec, shards: &mut Vec<Vec<u8>>) -> (r: Result<(), reed_solomon_erasure::Error>)
    ensures
        r is Ok <==> (old(shards)@.len() == codec.data_count + codec.parity_count
            && old(shards)@[0]@.len() > 0 && all_len(shard_views(old(shards)@), old(shards)@[0]@.len())),
        r is Err ==> final(shards)@ == old(shards)@,
        final(shards)@.len() == old(shards)@.len(),
        forall|i: int| 0 <= i < final(shards)@.len() ==> (#[trigger] final(shards)@[i])@.len() == old(shards)@[i]@.len(),
        r is Ok ==> shard_views(final(shards)@) == shard_views(old(shards)@).subrange(
            0,
            codec.data_count as int,
        ) + rs_parity_shards(
            codec.data_count as nat,
            codec.parity_count as nat,
            shard_views(old(shards)@).subrange(0, codec.data_count as int),
        ),
{
    codec.handle.rs.encode(shards)
}

/// `ReedSolomon::reconstruct` on `codec`'s code word. It fails, touching
/// nothing, unless there are exactly data + parity slots, every present
/// shard is non-empty and of one length, and at least `data_count` are
/// present. On success every slot holds `rs_reconstructed` of the input,
/// present shards are kept, and when the present shards agree with the code
/// word of some data, the slots hold that whole code word (any `data_count`
/// shards of a Reed-Solomon code word determine it).
#[verifier::external_body]
fn rs_reconstruct(codec: &RsCodec, shards: &mut Vec<Option<Vec<u8>>>) -> (r: Result<(), reed_solomon_erasure::Error>)
    ensures
        r is Ok <==> (old(shards)@.len() == codec.data_count + codec.parity_count
            && present_uniform(opt_shard_views(old(shards)@))
            && count_present(opt_shard_views(old(shards)@)) >= codec.data_count),
        r is Err ==> final(shards)@ == old(shards)@,
        r is Ok ==> {
            &&& final(shards)@.len() == old(shards)@.len()
            &&& forall|i: int| 0 <= i < final(shards)@.len() ==> (#[trigger] final(shards)@[i]) is Some
            &&& opt_shard_views(final(shards)@) == some_all(
                rs_reconstructed(
                    codec.data_count as nat,
                    codec.parity_count as nat,
                    opt_shard_views(old(shards)@),
                ),
            )
            &&& rs_reconstructed(
                codec.data_count as nat,
                codec.parity_count as nat,
                opt_shard_views(old(shards)@),
            ).len() == old(shards)@.len()
            &&& forall|i: int|
                0 <= i < old(shards)@.len() && (#[trigger] old(shards)@[i]) is Some
                    ==> final(shards)@[i] == old(shards)@[i]
            &&& forall|data: Seq<Seq<u8>>|
                data.len() == codec.data_count && agrees_with(
                    opt_shard_views(old(shards)@),
                    #[trigger] rs_codeword(codec.parity_count as nat, data),
                ) ==> rs_reconstructed(
                    codec.data_count as nat,
                    codec.parity_count as nat,
                    opt_shard_views(old(shards)@),
                ) == rs_codeword(codec.parity_count as nat, data)
        },
{
    codec.handle.rs.reconstruct(shards.as_mut_slice())
}

/// The text of a `reed-solomon-erasure` error (its `Display`).
#[verifier::external_body]
fn rs_error_text(e: &reed_solomon_erasure::Error) -> String {
    format!("{e}")
}

impl RsCodec {
    #[verifier::type_invariant]
    spec fn counts_fit(&self) -> bool {
        &&& self.data_count > 0
        &&& self.parity_count > 0
        &&& self.data_count + self.parity_count <= RS_MAX_SHARDS
    }

    pub closed spec fn data_count_spec(&self) -> nat {
        self.data_count as nat
    }

    pub closed spec fn parity_count_spec(&self) -> nat {
        self.parity_count as nat
    }

    /// A codec for `data_count` data and `parity_count` parity shards, or the
    /// library's error when the counts are not usable.
    pub fn new(data_count: usize, parity_count: usize) -> (r: Result<RsCodec, String>)
        ensures
            r is Ok <==> (data_count > 0 && parity_count > 0 && data_count + parity_count
                <= RS_MAX_SHARDS),
            r matches Ok(c) ==> c.data_count_spec() == data_count && c.parity_count_spec()
                == parity_count,
    {
        // A count above 256 is refused as too many shards whatever the other
        // count; capping each at 256 gives the library the same verdict and
        // error without letting its sum overflow.
        let d = if data_count > RS_MAX_SHARDS {
            RS_MAX_SHARDS
        } else {
            data_count
        };
        let p = if parity_count > RS_MAX_SHARDS {
            RS_MAX_SHARDS
        } else {
            parity_count
        };
        match rs_new(d, p) {
            Ok(handle) => Ok(RsCodec { handle, data_count, parity_count }),
            Err(e) => Err(rs_error_text(&e)),
        }
    }
}


/// `n` zero bytes.
pub fn zeros(n: usize) -> (v: Vec<u8>)
    ensures
        v@ == Seq::new(n as nat, |i: int| 0u8),
{
    let mut v: Vec<u8> = Vec::with_capacity(n);
    let mut i: usize = 0;
    while i < n
        invariant
            i <= n,
            v@ == Seq::new(i as nat, |k: int| 0u8),
        decreases n - i,
    {
        v.push(0);
        i = i + 1;
        assert(v@ =~= Seq::new(i as nat, |k: int| 0u8));
    }
    v
}

/// Copy of a byte slice.
pub fn copy_bytes(s: &[u8]) -> (v: Vec<u8>)
    ensures
        v@ == s@,
{
    vstd::slice::slice_to_vec(s)
}

/// Why an FEC operation failed.
#[derive(Debug)]
pub enum FecError {
    EmptyInput,
    UnequalShards,
    InsufficientShards,
    ReedSolomon(String),
}

/// What a `FecError` says to a reader.
pub open spec fn fec_error_text(e: FecError) -> Seq<char> {
    match e {
        FecError::EmptyInput => "empty input"@,
        FecError::UnequalShards => "shards have unequal length"@,
        FecError::InsufficientShards => "insufficient shards for reconstruction"@,
        FecError::ReedSolomon(msg) => "reed-solomon error: "@ + msg@,
    }
}

impl FecError {
    /// The error's message.
    pub fn message(&self) -> (s: String)
        ensures
            s@ == fec_error_text(*self),
    {
        match self {
            FecError::EmptyInput => String::from_str("empty input"),
            FecError::UnequalShards => String::from_str("shards have unequal length"),
            FecError::InsufficientShards => String::from_str("insufficient shards for reconstruction"),
            FecError::ReedSolomon(msg) => String::from_str("reed-solomon error: ").concat(msg.as_str()),
        }
    }
}

/// Parity shards for `d` data shards under a parity table: at least one;
/// `table[d]` for `d` up to 255, and 1 beyond (such a code word never fits
/// GF(2^8) whatever its parity).
pub open spec fn parity_for(table: Seq<u16>, d: nat) -> nat {
    if d < table.len() && table[d as int] >= 1 {
        table[d as int] as nat
    } else {
        1
    }
}

/// `data` can be FEC-coded under `table`.
pub open spec fn encodable(table: Seq<u16>, data: Seq<Seq<u8>>) -> bool {
    &&& data.len() > 0
    &&& data[0].len() > 0
    &&& all_len(data, data[0].len())
    &&& data.len() + parity_for(table, data.len()) <= RS_MAX_SHARDS
}

/// Largest data-shard count whose code word (data + parity) fits GF(2^8).
pub open spec fn max_data_for(table: Seq<u16>) -> nat {
    if exists|d: nat| 1 <= d <= 255 && d + parity_for(table, d) <= RS_MAX_SHARDS {
        choose|d: nat|
            1 <= d <= 255 && d + parity_for(table, d) <= RS_MAX_SHARDS && forall|e: nat|
                d < e <= 255 ==> e + parity_for(table, e) > RS_MAX_SHARDS
    } else {
        0
    }
}

/// Reed-Solomon encoder. The parity count for each data-shard count comes
/// from a table (`table[d]` parity shards for `d` data shards, at least one),
/// which callers derive from their redundancy ratio; the codec is cached
/// while consecutive frames need the same shard counts.
pub struct FecEncoder {
    parity_table: Vec<u16>,
    cached: Option<RsCodec>,
}

impl FecEncoder {
    pub closed spec fn table(&self) -> Seq<u16> {
        self.parity_table@
    }

    /// An encoder with the given parity table (entries 0..=255).
    pub fn from_parity_table(parity_table: Vec<u16>) -> (r: Self)
        ensures
            r.table() == parity_table@,
    {
        FecEncoder { parity_table, cached: None }
    }

    /// Replace the parity table; the cached codec is dropped.
    pub fn set_parity_table(&mut self, parity_table: Vec<u16>)
        ensures
            final(self).table() == parity_table@,
    {
        self.parity_table = parity_table;
        self.cached = None;
    }

    /// The parity table in use.
    pub fn parity_table(&self) -> (r: &[u16])
        ensures
            r@ == self.table(),
    {
        self.parity_table.as_slice()
    }

    /// Parity shards used for `d` data shards.
    pub fn parity_count(&self, d: usize) -> (p: usize)
        ensures
            p == parity_for(self.table(), d as nat),
    {
        if d < self.parity_table.len() && self.parity_table[d] >= 1 {
            self.parity_table[d] as usize
        } else {
            1
        }
    }

    /// Largest number of data shards one code word holds (0 if none).
    pub fn max_data_shards(&self) -> (m: usize)
        ensures
            m == max_data_for(self.table()),
            m <= 255,
            m > 0 ==> m + parity_for(self.table(), m as nat) <= RS_MAX_SHARDS,
            forall|e: nat| m < e <= 255 ==> e + parity_for(self.table(), e) > RS_MAX_SHARDS,
    {
        let mut best: usize = 0;
        let mut d: usize = 1;
        while d <= 255
            invariant
                1 <= d <= 256,
                best < d,
                best > 0 ==> best + parity_for(self.table(), best as nat) <= RS_MAX_SHARDS,
                forall|e: nat| best < e < d ==> e + parity_for(self.table(), e) > RS_MAX_SHARDS,
            decreases 256 - d,
        {
            let p = self.parity_count(d);
            if d + p <= RS_MAX_SHARDS {
                best = d;
            }
            d = d + 1;
        }
        proof {
            let t = self.table();
            if best > 0 {
                let b = best as nat;
                assert(1 <= b <= 255 && b + parity_for(t, b) <= RS_MAX_SHARDS && forall|e: nat|
                    b < e <= 255 ==> e + parity_for(t, e) > RS_MAX_SHARDS);
                let c = choose|d: nat|
                    1 <= d <= 255 && d + parity_for(t, d) <= RS_MAX_SHARDS && forall|e: nat|
                        d < e <= 255 ==> e + parity_for(t, e) > RS_MAX_SHARDS;
                assert(c == b) by {
                    if c < b {
                        assert(b + parity_for(t, b) > RS_MAX_SHARDS);
                    } else if c > b {
                        assert(c + parity_for(t, c) > RS_MAX_SHARDS);
                    }
                }
            } else {
                assert(!exists|d: nat| 1 <= d <= 255 && d + parity_for(t, d) <= RS_MAX_SHARDS);
            }
        }
        best
    }

    /// Append parity to `data_shards`. Fails for no shards
    /// (`EmptyInput`), shards of different lengths (`UnequalShards`), or a
    /// code word the library refuses (`ReedSolomon`: empty shards, or more
    /// than 256 shards in all). On success the result is the data shards
    /// followed by `rs_parity_shards` of them.
    pub fn encode(&mut self, data_shards: Vec<Vec<u8>>) -> (r: Result<Vec<Vec<u8>>, FecError>)
        ensures
            final(self).table() == old(self).table(),
            r is Ok <==> encodable(old(self).table(), shard_views(data_shards@)),
            data_shards@.len() == 0 ==> r matches Err(FecError::EmptyInput),
            (data_shards@.len() > 0 && !all_len(shard_views(data_shards@), data_shards@[0]@.len()))
                ==> r matches Err(FecError::UnequalShards),
            (data_shards@.len() > 0 && all_len(shard_views(data_shards@), data_shards@[0]@.len())
                && !encodable(old(self).table(), shard_views(data_shards@))) ==> r matches Err(
                FecError::ReedSolomon(_),
            ),
            r matches Ok(v) ==> v@.len() == data_shards@.len() + parity_for(old(self).table(), data_shards@.len() as nat),
            r matches Ok(v) ==> all_len(shard_views(v@), data_shards@[0]@.len()),
            r matches Ok(v) ==> shard_views(v@) == shard_views(data_shards@) + rs_parity_shards(
                data_shards@.len() as nat,
                parity_for(old(self).table(), data_shards@.len() as nat),
                shard_views(data_shards@),
            ),
    {
        let ghost input = shard_views(data_shards@);
        let mut shards = data_shards;
        if shards.len() == 0 {
            return Err(FecError::EmptyInput);
        }
        let data_count = shards.len();
        let parity_count = self.parity_count(data_count);
        let shard_len = shards[0].len();
        let mut k: usize = 0;
        while k < data_count
            invariant
                data_count == shards@.len(),
                shards@ == data_shards@,
                data_count > 0,
                shard_len == shards@[0]@.len(),
                k <= data_count,
                forall|j: int| 0 <= j < k ==> (#[trigger] shards@[j])@.len() == shard_len,
            decreases data_count - k,
        {
            if shards[k].len() != shard_len {
                assert(!all_len(shard_views(shards@), shard_len as nat)) by {
                    assert(shard_views(shards@)[k as int].len() != shard_len);
                }
                return Err(FecError::UnequalShards);
            }
            k = k + 1;
        }
        assert(all_len(shard_views(shards@), shard_len as nat));
        assert(shard_views(shards@) == input);
        let reuse = match &self.cached {
            Some(c) => c.data_count == data_count && c.parity_count == parity_count,
            None => false,
        };
        if !reuse {
            match RsCodec::new(data_count, parity_count) {
                Ok(c) => {
                    self.cached = Some(c);
                },
                Err(msg) => {
                    return Err(FecError::ReedSolomon(msg));
                },
            }
        }
        let ghost data_view = shard_views(shards@);
        let mut j: usize = 0;
        while j < parity_count
            invariant
                j <= parity_count,
                data_count > 0,
                parity_count == parity_for(self.table(), data_count as nat),
                self.cached matches Some(c) && c.data_count == data_count && c.parity_count
                    == parity_count,
                input == shard_views(data_shards@),
                shards@.len() == data_count + j,
                shard_views(shards@).subrange(0, data_count as int) == data_view,
                data_view.len() == data_count,
                shards@[0]@.len() == shard_len,
                all_len(shard_views(shards@), shard_len as nat),
            decreases parity_count - j,
        {
            let z = zeros(shard_len);
            let ghost before = shards@;
            shards.push(z);
            proof {
                assert(shard_views(shards@).subrange(0, data_count as int) =~= shard_views(
                    before,
                ).subrange(0, data_count as int));
                assert forall|i: int| 0 <= i < shards@.len() implies (#[trigger] shard_views(
                    shards@,
                )[i]).len() == shard_len by {
                    if i < before.len() {
                        assert(shard_views(shards@)[i] == shard_views(before)[i]);
                    }
                }
            }
            j = j + 1;
        }
        let codec = match &self.cached {
            Some(c) => c,
            None => {
                return Err(FecError::EmptyInput);
            },
        };
        proof {
            use_type_invariant(codec);
        }
        let ghost before = shards@;
        match rs_encode(codec, &mut shards) {
            Ok(()) => {
                proof {
                    assert forall|i: int| 0 <= i < shards@.len() implies (#[trigger] shard_views(shards@)[i]).len()
                        == shard_len by {
                        assert(shard_views(before)[i].len() == shard_len);
                    }
                }
                Ok(shards)
            },
            Err(e) => Err(FecError::ReedSolomon(rs_error_text(&e))),
        }
    }
}

/// Reed-Solomon decoding.
pub struct FecDecoder;

impl FecDecoder {
    /// Rebuild missing shards; `None` marks a lost one and the first
    /// `data_count` slots are the data shards. Fails (`InsufficientShards`)
    /// without parity slots, and (`ReedSolomon`) when the library refuses the
    /// code word: too few shards present, empty or unequal shards, more than
    /// 256 in all. On success the slots are all filled, present shards kept,
    /// and the result is the data shards; when the present shards agree with
    /// the code word of some data, the result is that data.
    pub fn decode(shards: &mut Vec<Option<Vec<u8>>>, data_count: usize) -> (r: Result<Vec<Vec<u8>>, FecError>)
        ensures
            r is Ok <==> (data_count < old(shards)@.len() && data_count > 0 && old(shards)@.len()
                <= RS_MAX_SHARDS && present_uniform(opt_shard_views(old(shards)@))
                && count_present(opt_shard_views(old(shards)@)) >= data_count),
            old(shards)@.len() <= data_count ==> r matches Err(FecError::InsufficientShards),
            r is Err ==> final(shards)@ == old(shards)@,
            r matches Ok(v) ==> {
                &&& v@.len() == data_count
                &&& final(shards)@.len() == old(shards)@.len()
                &&& forall|i: int| 0 <= i < final(shards)@.len() ==> (#[trigger] final(shards)@[i]) is Some
                &&& forall|i: int|
                    0 <= i < old(shards)@.len() && (#[trigger] old(shards)@[i]) is Some
                        ==> final(shards)@[i] == old(shards)@[i]
                &&& forall|i: int|
                    0 <= i < data_count ==> opt_shard_views(final(shards)@)[i] == Some(
                        (#[trigger] v@[i])@,
                    )
                &&& shard_views(v@) == rs_reconstructed(
                    data_count as nat,
                    (old(shards)@.len() - data_count) as nat,
                    opt_shard_views(old(shards)@),
                ).subrange(0, data_count as int)
                &&& forall|data: Seq<Seq<u8>>|
                    data.len() == data_count && agrees_with(
                        opt_shard_views(old(shards)@),
                        #[trigger] rs_codeword((old(shards)@.len() - data_count) as nat, data),
                    ) ==> shard_views(v@) == data
            },
    {
        let total = shards.len();
        if total <= data_count {
            return Err(FecError::InsufficientShards);
        }
        let parity_count = total - data_count;
        let codec = match RsCodec::new(data_count, parity_count) {
            Ok(c) => c,
            Err(msg) => {
                return Err(FecError::ReedSolomon(msg));
            },
        };
        match rs_reconstruct(&codec, shards) {
            Ok(()) => {},
            Err(e) => {
                return Err(FecError::ReedSolomon(rs_error_text(&e)));
            },
        }
        let mut result: Vec<Vec<u8>> = Vec::new();
        let mut i: usize = 0;
        while i < data_count
            invariant
                i <= data_count,
                data_count < shards@.len(),
                forall|k: int| 0 <= k < shards@.len() ==> (#[trigger] shards@[k]) is Some,
                opt_shard_views(shards@) == some_all(
                    rs_reconstructed(
                        data_count as nat,
                        (old(shards)@.len() - data_count) as nat,
                        opt_shard_views(old(shards)@),
                    ),
                ),
                result@.len() == i,
                forall|k: int|
                    0 <= k < i ==> opt_shard_views(shards@)[k] == Some((#[trigger] result@[k])@),
            decreases data_count - i,
        {
            let copy = match &shards[i] {
                Some(s) => copy_bytes(s.as_slice()),
                None => Vec::new(),
            };
            result.push(copy);
            i = i + 1;
        }
        proof {
            assert forall|data: Seq<Seq<u8>>|
                data.len() == data_count && agrees_with(
                    opt_shard_views(old(shards)@),
                    #[trigger] rs_codeword((old(shards)@.len() - data_count) as nat, data),
                ) implies shard_views(result@) == data by {
                let word = rs_codeword(parity_count as nat, data);
                assert(opt_shard_views(shards@) == some_all(word));
                assert forall|k: int| 0 <= k < data_count implies shard_views(result@)[k] == data[k] by {
                    assert(opt_shard_views(shards@)[k] == Some(word[k]));
                }
                assert(shard_views(result@) =~= data);
            }
            let rec = rs_reconstructed(
                data_count as nat,
                parity_count as nat,
                opt_shard_views(old(shards)@),
            );
            assert forall|k: int| 0 <= k < data_count implies shard_views(result@)[k] == rec[k] by {
                assert(opt_shard_views(shards@)[k] == Some(rec[k]));
            }
            assert(shard_views(result@) =~= rec.subrange(0, data_count as int));
        }
        Ok(result)
    }
}

} // verus!
