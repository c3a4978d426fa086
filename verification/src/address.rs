use vstd::prelude::*;

verus! {

// ---------------------------------------------------------------------------
// Content-key normalization: leading and trailing whitespace is stripped
// before any address is derived, so equivalent inputs share one address.
// ---------------------------------------------------------------------------

/// ASCII whitespace stripped from the ends of a content key.
pub open spec fn is_ws(b: u8) -> bool {
    b == 0x20 || b == 0x09 || b == 0x0a || b == 0x0d
}

/// The sequence with its leading whitespace removed.
pub open spec fn trim_front(s: Seq<u8>) -> Seq<u8>
    decreases s.len(),
{
    if s.len() > 0 && is_ws(s[0]) {
        trim_front(s.drop_first())
    } else {
        s
    }
}

/// The sequence with its trailing whitespace removed.
pub open spec fn trim_back(s: Seq<u8>) -> Seq<u8>
    decreases s.len(),
{
    if s.len() > 0 && is_ws(s.last()) {
        trim_back(s.drop_last())
    } else {
        s
    }
}

/// The normalized form of a content key.
pub open spec fn trimmed(s: Seq<u8>) -> Seq<u8> {
    trim_back(trim_front(s))
}

/// Removing leading whitespace yields the suffix that starts at the first
/// non-whitespace byte.
proof fn lemma_trim_front_skip(s: Seq<u8>, i: int)
    requires
        0 <= i <= s.len(),
        forall|j: int| 0 <= j < i ==> is_ws(s[j]),
    ensures
        trim_front(s) == trim_front(s.skip(i)),
    decreases i,
{
    if i > 0 {
        assert(s.skip(0) =~= s);
        lemma_trim_front_skip(s, i - 1);
        assert(s.skip(i - 1).drop_first() =~= s.skip(i));
        assert(trim_front(s.skip(i - 1)) == trim_front(s.skip(i)));
    } else {
        assert(s.skip(0) =~= s);
    }
}

/// Removing trailing whitespace from a range whose tail is whitespace
/// yields the same result as from the shorter range.
proof fn lemma_trim_back_sub(s: Seq<u8>, lo: int, hi: int, hi2: int)
    requires
        0 <= lo <= hi <= hi2 <= s.len(),
        forall|j: int| hi <= j < hi2 ==> is_ws(s[j]),
    ensures
        trim_back(s.subrange(lo, hi2)) == trim_back(s.subrange(lo, hi)),
    decreases hi2 - hi,
{
    if hi2 > hi {
        assert(s.subrange(lo, hi2).drop_last() =~= s.subrange(lo, hi2 - 1));
        lemma_trim_back_sub(s, lo, hi, hi2 - 1);
    }
}

/// A trimmed sequence is empty or keeps a non-whitespace byte at each end;
/// trimming is therefore idempotent.
pub proof fn lemma_trimmed_idempotent(s: Seq<u8>)
    ensures
        trimmed(trimmed(s)) == trimmed(s),
{
    let t = trim_front(s);
    lemma_trim_front_ends(s);
    lemma_trim_back_ends(t);
    let u = trim_back(t);
    if u.len() > 0 {
        assert(!is_ws(u[0]));
        assert(!is_ws(u.last()));
    }
}

/// `trim_front` returns its input's suffix whose first byte, if any, is
/// not whitespace.
proof fn lemma_trim_front_ends(s: Seq<u8>)
    ensures
        trim_front(s).len() == 0 || !is_ws(trim_front(s)[0]),
    decreases s.len(),
{
    if s.len() > 0 && is_ws(s[0]) {
        lemma_trim_front_ends(s.drop_first());
    }
}

/// `trim_back` returns a prefix of its input: the last byte, if any, is
/// not whitespace, and the first byte is the input's first byte.
proof fn lemma_trim_back_ends(s: Seq<u8>)
    ensures
        trim_back(s).len() == 0 || !is_ws(trim_back(s).last()),
        trim_back(s).len() <= s.len(),
        forall|i: int| 0 <= i < trim_back(s).len() ==> trim_back(s)[i] == s[i],
    decreases s.len(),
{
    if s.len() > 0 && is_ws(s.last()) {
        lemma_trim_back_ends(s.drop_last());
        assert forall|i: int| 0 <= i < trim_back(s).len() implies trim_back(s)[i] == s[i] by {
            assert(trim_back(s)[i] == s.drop_last()[i]);
        }
    }
}

/// Whitespace test on one byte.
pub fn is_ws_byte(b: u8) -> (r: bool)
    ensures
        r == is_ws(b),
{
    b == 0x20 || b == 0x09 || b == 0x0a || b == 0x0d
}

/// Copy of the content key with leading and trailing whitespace removed.
pub fn trim_bytes(s: &Vec<u8>) -> (r: Vec<u8>)
    ensures
        r@ == trimmed(s@),
{
    let ghost orig = s@;
    let mut start: usize = 0;
    while start < s.len() && is_ws_byte(s[start])
        invariant
            0 <= start <= s.len(),
            s@ == orig,
            forall|j: int| 0 <= j < start ==> is_ws(orig[j]),
        decreases s.len() - start,
    {
        start = start + 1;
    }
    proof {
        lemma_trim_front_skip(orig, start as int);
        if start < orig.len() {
            assert(orig.skip(start as int)[0] == orig[start as int]);
            assert(trim_front(orig.skip(start as int)) == orig.skip(start as int));
        } else {
            assert(orig.skip(start as int) =~= Seq::<u8>::empty());
        }
        assert(trim_front(orig) == orig.skip(start as int));
        assert(orig.skip(start as int) =~= orig.subrange(start as int, orig.len() as int));
    }
    let mut end: usize = s.len();
    while end > start && is_ws_byte(s[end - 1])
        invariant
            start <= end <= s.len(),
            s@ == orig,
            forall|j: int| end <= j < s.len() ==> is_ws(orig[j]),
        decreases end,
    {
        end = end - 1;
    }
    proof {
        lemma_trim_back_sub(orig, start as int, end as int, orig.len() as int);
        let core = orig.subrange(start as int, end as int);
        if end > start {
            assert(core.last() == orig[end - 1]);
            assert(trim_back(core) == core);
        } else {
            assert(core =~= Seq::<u8>::empty());
        }
        assert(trimmed(orig) == orig.subrange(start as int, end as int));
    }
    let mut r: Vec<u8> = Vec::new();
    let mut i: usize = start;
    while i < end
        invariant
            start <= i <= end <= s.len(),
            s@ == orig,
            r@ =~= orig.subrange(start as int, i as int),
        decreases end - i,
    {
        r.push(s[i]);
        i = i + 1;
    }
    proof {
        assert(r@ =~= orig.subrange(start as int, end as int));
    }
    r
}

// ---------------------------------------------------------------------------
// Address derivation. The storage address of a record is a program-derived
// address computed from a fixed seed prefix, the SHA-256 digest of the
// normalized content key, and a fixed program tag. Both outside calls are
// pure functions of their arguments, named below.
// ---------------------------------------------------------------------------

/// SHA-256 digest, as computed by `solana_sha256_hasher::hash`.
pub uninterp spec fn sha256_of(data: Seq<u8>) -> Seq<u8>;

/// Program-derived address and nonce that
/// `Pubkey::try_find_program_address` finds for two seeds and a program
/// id, or `None` when no nonce works.
pub uninterp spec fn pda_of(prefix: Seq<u8>, seed: Seq<u8>, program: Seq<u8>) -> Option<
    (Seq<u8>, u8),
>;

/// Relies on `solana_sha256_hasher::hash`: the SHA-256 digest of the
/// input, 32 bytes, a function of the input bytes alone.
#[verifier::external_body]
pub(crate) fn sha256(data: &Vec<u8>) -> (r: Vec<u8>)
    ensures
        r@ == sha256_of(data@),
        r@.len() == 32,
{
    solana_sha256_hasher::hash(data.as_slice()).to_bytes().to_vec()
}

/// View of the raw derivation result over plain values.
pub open spec fn pda_view(r: Option<(Vec<u8>, u8)>) -> Option<(Seq<u8>, u8)> {
    match r {
        Some(p) => Some((p.0@, p.1)),
        None => None,
    }
}

/// Relies on `Pubkey::try_find_program_address` (reached through
/// `anchor_lang`'s re-exported pubkey module): searches nonces from 255
/// down for an address off the ed25519 curve; the result is a function of
/// the seeds and the program id alone, an address is 32 bytes, and `None`
/// comes back instead of any failure.
#[verifier::external_body]
pub(crate) fn find_pda(prefix: &Vec<u8>, seed: &Vec<u8>, program: &Vec<u8>) -> (r: Option<(Vec<u8>, u8)>)
    requires
        program@.len() == 32,
    ensures
        pda_view(r) == pda_of(prefix@, seed@, program@),
        r matches Some(p) ==> p.0@.len() == 32,
{
    let id = anchor_lang::solana_program::pubkey::Pubkey::new_from_array(
        program.as_slice().try_into().unwrap(),
    );
    let found = anchor_lang::solana_program::pubkey::Pubkey::try_find_program_address(
        &[prefix.as_slice(), seed.as_slice()],
        &id,
    );
    found.map(|pair| (pair.0.to_bytes().to_vec(), pair.1))
}

/// Seed prefix that namespaces every record address: the bytes of
/// `economic_data`.
pub open spec fn seed_prefix() -> Seq<u8> {
    seq![
        0x65u8, 0x63u8, 0x6fu8, 0x6eu8, 0x6fu8, 0x6du8, 0x69u8, 0x63u8, 0x5fu8, 0x64u8, 0x61u8,
        0x74u8, 0x61u8,
    ]
}

/// The 32-byte program id under which record addresses are derived.
pub open spec fn program_tag() -> Seq<u8> {
    seq![
        50u8, 160u8, 250u8, 67u8, 166u8, 127u8, 55u8, 83u8, 225u8, 143u8, 182u8, 61u8, 5u8, 178u8,
        196u8, 55u8, 151u8, 119u8, 171u8, 198u8, 248u8, 213u8, 202u8, 171u8, 208u8, 165u8, 181u8,
        215u8, 227u8, 154u8, 12u8, 25u8,
    ]
}

/// Builds the executable seed prefix.
pub fn seed_prefix_bytes() -> (r: Vec<u8>)
    ensures
        r@ == seed_prefix(),
{
    let mut v: Vec<u8> = Vec::new();
    v.push(0x65);
    v.push(0x63);
    v.push(0x6f);
    v.push(0x6e);
    v.push(0x6f);
    v.push(0x6d);
    v.push(0x69);
    v.push(0x63);
    v.push(0x5f);
    v.push(0x64);
    v.push(0x61);
    v.push(0x74);
    v.push(0x61);
    proof {
        assert(v@ =~= seed_prefix());
    }
    v
}

/// Builds the executable program tag.
pub fn program_tag_bytes() -> (r: Vec<u8>)
    ensures
        r@ == program_tag(),
        r@.len() == 32,
{
    let mut v: Vec<u8> = Vec::new();
    v.push(50);
    v.push(160);
    v.push(250);
    v.push(67);
    v.push(166);
    v.push(127);
    v.push(55);
    v.push(83);
    v.push(225);
    v.push(143);
    v.push(182);
    v.push(61);
    v.push(5);
    v.push(178);
    v.push(196);
    v.push(55);
    v.push(151);
    v.push(119);
    v.push(171);
    v.push(198);
    v.push(248);
    v.push(213);
    v.push(202);
    v.push(171);
    v.push(208);
    v.push(165);
    v.push(181);
    v.push(215);
    v.push(227);
    v.push(154);
    v.push(12);
    v.push(25);
    proof {
        assert(v@ =~= program_tag());
    }
    v
}

/// A derived storage address with its disambiguating nonce.
pub struct Derived {
    pub addr: Vec<u8>,
    pub nonce: u8,
}

/// Mathematical image of a `Derived`.
#[verifier::ext_equal]
pub ghost struct DerivedView {
    pub addr: Seq<u8>,
    pub nonce: u8,
}

impl View for Derived {
    type V = DerivedView;

    open spec fn view(&self) -> DerivedView {
        DerivedView { addr: self.addr@, nonce: self.nonce }
    }
}

/// Address and nonce derived from an already-normalized content key.
pub open spec fn derive_norm(k: Seq<u8>) -> Option<DerivedView> {
    match pda_of(seed_prefix(), sha256_of(k), program_tag()) {
        Some(p) => Some(DerivedView { addr: p.0, nonce: p.1 }),
        None => None,
    }
}

/// Address and nonce derived from a raw content key: the key is
/// normalized first, so equivalent inputs share one address.
pub open spec fn derive_of(key: Seq<u8>) -> Option<DerivedView> {
    derive_norm(trimmed(key))
}

/// Derives the storage address of the record with this content key.
/// Deterministic: the result is a function of the key alone, independent
/// of call order and caller. An empty key is allowed.
pub fn derive(content_key: &Vec<u8>) -> (r: Option<Derived>)
    ensures
        match r {
            Some(d) => derive_of(content_key@) == Some(d@) && d.addr@.len() == 32,
            None => derive_of(content_key@) is None,
        },
{
    let norm = trim_bytes(content_key);
    let digest = sha256(&norm);
    let prefix = seed_prefix_bytes();
    let tag = program_tag_bytes();
    match find_pda(&prefix, &digest, &tag) {
        Some(pair) => Some(Derived { addr: pair.0, nonce: pair.1 }),
        None => None,
    }
}

/// Determinism of address derivation: equal content keys always derive
/// equal addresses and nonces, on every call.
pub proof fn lemma_derive_deterministic(k1: Seq<u8>, k2: Seq<u8>)
    requires
        k1 == k2,
    ensures
        derive_of(k1) == derive_of(k2),
{
}

} // verus!
