//! The delegate's persisted permission record and its byte codec.
//!
//! A record is stored as the entire contents of the delegate account's data
//! buffer, in the following little-endian layout:
//!
//! | offset          | size    | field                                   |
//! |-----------------|---------|-----------------------------------------|
//! | 0               | 32      | delegator address                       |
//! | 32              | 1       | initialization flag (0 or 1)            |
//! | 33              | 4       | permission count `pc` (u32)             |
//! | 37              | pc      | permission bytes, one per permission    |
//! | 37 + pc         | 4       | approved-token count `tc` (u32)         |
//! | 41 + pc         | 40 * tc | approved tokens: 32-byte account + u64  |

use vstd::bytes::*;
use vstd::prelude::*;

verus! {

/// A capability granted to the delegate. `Spend` is the only kind.
#[derive(Clone, Copy, Debug, PartialEq, Eq, Structural)]
pub enum Permission {
    Spend,
}

impl Permission {
    /// The wire byte that stands for this permission.
    pub open spec fn spec_to_byte(self) -> u8 {
        match self {
            Permission::Spend => 0,
        }
    }

    /// The permission a wire byte stands for, if any.
    pub open spec fn spec_from_byte(b: u8) -> Option<Permission> {
        if b == 0 {
            Some(Permission::Spend)
        } else {
            None
        }
    }

    pub fn to_byte(self) -> (b: u8)
        ensures
            b == self.spec_to_byte(),
    {
        match self {
            Permission::Spend => 0,
        }
    }

    /// Decode one permission byte; an unmapped byte is reported, never a panic.
    pub fn from_byte(b: u8) -> (r: Option<Permission>)
        ensures
            r == Permission::spec_from_byte(b),
    {
        if b == 0 {
            Some(Permission::Spend)
        } else {
            None
        }
    }
}

/// Failures of the permission-record codec.
#[derive(Clone, Copy, Debug, PartialEq, Eq, Structural)]
pub enum CodecError {
    /// The initialization flag held a value other than 0 or 1.
    InvalidFlag,
    /// A permission byte did not map to any known permission.
    UnknownPermissionTag,
    /// A declared count would read past the end of the buffer.
    TruncatedBuffer,
    /// The destination buffer cannot hold the encoded record.
    BufferTooSmall,
}

/// A per-token approval tracked locally beside the external engine's ledger.
#[derive(Clone, Debug, PartialEq)]
pub struct ApprovedToken {
    pub token_account: [u8; 32],
    pub allowance: u64,
}

/// The mathematical value of an [`ApprovedToken`].
#[verifier::ext_equal]
pub struct TokenModel {
    pub token_account: Seq<u8>,
    pub allowance: u64,
}

impl View for ApprovedToken {
    type V = TokenModel;

    open spec fn view(&self) -> TokenModel {
        TokenModel { token_account: self.token_account@, allowance: self.allowance }
    }
}

/// The delegate's persisted permission record.
#[derive(Clone, Debug, PartialEq)]
pub struct DelegatePermissions {
    pub delegator_address: [u8; 32],
    pub is_initialized: bool,
    pub permissions: Vec<Permission>,
    pub approved_tokens: Vec<ApprovedToken>,
}

impl Default for DelegatePermissions {
    /// A fresh, never-granted record: all-zero address, uninitialized, empty
    /// lists.
    fn default() -> (d: Self)
        ensures
            d@.delegator_address.len() == 32,
            forall|i: int| 0 <= i < 32 ==> d@.delegator_address[i] == 0,
            !d@.is_initialized,
            d@.permissions == Seq::<Permission>::empty(),
            d@.approved_tokens == Seq::<TokenModel>::empty(),
    {
        let d = DelegatePermissions {
            delegator_address: [0u8; 32],
            is_initialized: false,
            permissions: Vec::new(),
            approved_tokens: Vec::new(),
        };
        proof {
            assert(d@.approved_tokens =~= Seq::<TokenModel>::empty());
        }
        d
    }
}

/// The mathematical value of a [`DelegatePermissions`] record.
#[verifier::ext_equal]
pub struct RecordModel {
    pub delegator_address: Seq<u8>,
    pub is_initialized: bool,
    pub permissions: Seq<Permission>,
    pub approved_tokens: Seq<TokenModel>,
}

impl View for DelegatePermissions {
    type V = RecordModel;

    open spec fn view(&self) -> RecordModel {
        RecordModel {
            delegator_address: self.delegator_address@,
            is_initialized: self.is_initialized,
            permissions: self.permissions@,
            approved_tokens: Seq::new(
                self.approved_tokens@.len(),
                |i: int| self.approved_tokens@[i]@,
            ),
        }
    }
}

/// A record whose addresses are 32 bytes wide and whose counts fit the wire's
/// u32 count fields.
pub open spec fn record_wf(r: RecordModel) -> bool {
    &&& r.delegator_address.len() == 32
    &&& r.permissions.len() <= u32::MAX
    &&& r.approved_tokens.len() <= u32::MAX
    &&& forall|i: int|
        0 <= i < r.approved_tokens.len() ==> (#[trigger] r.approved_tokens[i]).token_account.len()
            == 32
}

/// The exact byte length of the encoded record.
pub open spec fn spec_encoded_len(r: RecordModel) -> int {
    37 + r.permissions.len() as int + 4 + 40 * r.approved_tokens.len() as int
}

/// One encoded approved token: 32 bytes of account, 8 bytes of allowance.
pub open spec fn spec_token_bytes(t: TokenModel) -> Seq<u8> {
    t.token_account + spec_u64_to_le_bytes(t.allowance)
}

/// The concatenation of the encoded approved tokens, in order.
pub open spec fn spec_tokens_bytes(ts: Seq<TokenModel>) -> Seq<u8>
    decreases ts.len(),
{
    if ts.len() == 0 {
        Seq::empty()
    } else {
        spec_token_bytes(ts[0]) + spec_tokens_bytes(ts.drop_first())
    }
}

/// The permission section: one byte per permission, in order.
pub open spec fn spec_perm_bytes(ps: Seq<Permission>) -> Seq<u8> {
    ps.map(|i: int, p: Permission| p.spec_to_byte())
}

/// The encoded form of a record, with both counts recomputed from the lists.
pub open spec fn spec_encode(r: RecordModel) -> Seq<u8> {
    r.delegator_address + seq![
        if r.is_initialized {
            1u8
        } else {
            0u8
        },
    ] + spec_u32_to_le_bytes(r.permissions.len() as u32) + spec_perm_bytes(r.permissions)
        + spec_u32_to_le_bytes(r.approved_tokens.len() as u32) + spec_tokens_bytes(
        r.approved_tokens,
    )
}

/// The approved token encoded at offset `off` of `s`.
pub open spec fn spec_token_at(s: Seq<u8>, off: int) -> TokenModel {
    TokenModel {
        token_account: s.subrange(off, off + 32),
        allowance: spec_u64_from_le_bytes(s.subrange(off + 32, off + 40)),
    }
}

/// What decoding a buffer yields: the record it encodes, or the first error
/// met reading the layout left to right.  Every variable-length section is
/// bounds-checked against the buffer before it is read; bytes past the encoded
/// record are ignored.
pub open spec fn spec_decode(s: Seq<u8>) -> Result<RecordModel, CodecError> {
    if s.len() < 37 {
        Err(CodecError::TruncatedBuffer)
    } else if s[32] != 0 && s[32] != 1 {
        Err(CodecError::InvalidFlag)
    } else {
        let pc = spec_u32_from_le_bytes(s.subrange(33, 37)) as int;
        if s.len() < 37 + pc {
            Err(CodecError::TruncatedBuffer)
        } else if exists|i: int| 0 <= i < pc && Permission::spec_from_byte(#[trigger] s[37 + i]) is None {
            Err(CodecError::UnknownPermissionTag)
        } else if s.len() < 41 + pc {
            Err(CodecError::TruncatedBuffer)
        } else {
            let tc = spec_u32_from_le_bytes(s.subrange(37 + pc, 41 + pc)) as int;
            if s.len() < 41 + pc + 40 * tc {
                Err(CodecError::TruncatedBuffer)
            } else {
                Ok(
                    RecordModel {
                        delegator_address: s.subrange(0, 32),
                        is_initialized: s[32] == 1,
                        permissions: Seq::new(
                            pc as nat,
                            |i: int| Permission::spec_from_byte(s[37 + i])->Some_0,
                        ),
                        approved_tokens: Seq::new(
                            tc as nat,
                            |i: int| spec_token_at(s, 41 + pc + 40 * i),
                        ),
                    },
                )
            }
        }
    }
}

impl ApprovedToken {
    /// Decode the 40-byte approved-token entry that starts at `off`.
    #[verifier::loop_isolation(false)]
    fn unpack_at(src: &[u8], off: usize) -> (t: ApprovedToken)
        requires
            off + 40 <= src@.len(),
            src@.len() <= usize::MAX,
        ensures
            t@ == spec_token_at(src@, off as int),
    {
        let mut token_account = [0u8; 32];
        let mut i: usize = 0;
        while i < 32
            invariant
                off + 40 <= src@.len(),
                src@.len() <= usize::MAX,
                0 <= i <= 32,
                forall|j: int| 0 <= j < i ==> token_account@[j] == src@[off + j],
            decreases 32 - i,
        {
            token_account[i] = src[off + i];
            i += 1;
        }
        let allowance = u64_from_le_bytes(vstd::slice::slice_subrange(src, off + 32, off + 40));
        let t = ApprovedToken { token_account, allowance };
        proof {
            assert(t.token_account@ =~= src@.subrange(off as int, off as int + 32));
        }
        t
    }
}

/// The encoded token section is 40 bytes per token.
pub proof fn lemma_tokens_bytes_len(ts: Seq<TokenModel>)
    requires
        forall|i: int| 0 <= i < ts.len() ==> (#[trigger] ts[i]).token_account.len() == 32,
    ensures
        spec_tokens_bytes(ts).len() == 40 * ts.len(),
    decreases ts.len(),
{
    if ts.len() == 0 {
    } else {
        assert(spec_token_bytes(ts[0]).len() == 40) by {
            lemma_auto_spec_u64_to_from_le_bytes();
        }
        lemma_tokens_bytes_len(ts.drop_first());
    }
}

/// Appending one token appends its 40-byte encoding.
pub proof fn lemma_tokens_bytes_snoc(ts: Seq<TokenModel>, t: TokenModel)
    ensures
        spec_tokens_bytes(ts.push(t)) == spec_tokens_bytes(ts) + spec_token_bytes(t),
    decreases ts.len(),
{
    if ts.len() == 0 {
        reveal_with_fuel(spec_tokens_bytes, 3);
        assert(ts.push(t).drop_first() =~= Seq::<TokenModel>::empty());
        assert(ts.push(t)[0] == t);
        assert(spec_tokens_bytes(ts.push(t)) =~= spec_tokens_bytes(ts) + spec_token_bytes(t));
    } else {
        lemma_tokens_bytes_snoc(ts.drop_first(), t);
        assert(ts.push(t).drop_first() =~= ts.drop_first().push(t));
        assert(ts.push(t)[0] == ts[0]);
        assert(spec_tokens_bytes(ts.push(t)) == spec_token_bytes(ts[0]) + (spec_tokens_bytes(
            ts.drop_first(),
        ) + spec_token_bytes(t)));
        assert(spec_tokens_bytes(ts.push(t)) =~= spec_tokens_bytes(ts) + spec_token_bytes(t));
    }
}

/// The token section holds each token's 40-byte encoding at its slot.
proof fn lemma_tokens_bytes_at(ts: Seq<TokenModel>, i: int)
    requires
        forall|k: int| 0 <= k < ts.len() ==> (#[trigger] ts[k]).token_account.len() == 32,
        0 <= i < ts.len(),
    ensures
        spec_tokens_bytes(ts).subrange(40 * i, 40 * i + 40) == spec_token_bytes(ts[i]),
    decreases i,
{
    lemma_tokens_bytes_len(ts);
    assert(spec_token_bytes(ts[0]).len() == 40) by {
        lemma_auto_spec_u64_to_from_le_bytes();
    }
    if i == 0 {
        assert(spec_tokens_bytes(ts).subrange(0, 40) =~= spec_token_bytes(ts[0]));
    } else {
        assert(forall|k: int|
            0 <= k < ts.drop_first().len() ==> (#[trigger] ts.drop_first()[k]).token_account.len()
                == 32);
        lemma_tokens_bytes_at(ts.drop_first(), i - 1);
        lemma_tokens_bytes_len(ts.drop_first());
        assert(spec_tokens_bytes(ts).subrange(40 * i, 40 * i + 40) =~= spec_tokens_bytes(
            ts.drop_first(),
        ).subrange(40 * (i - 1), 40 * (i - 1) + 40));
        assert(ts.drop_first()[i - 1] == ts[i]);
    }
}

/// Round trip behind any tail: decoding a buffer that starts with an encoded
/// record yields that record, whatever follows it.
pub proof fn lemma_decode_of_encode_with_tail(r: RecordModel, tail: Seq<u8>)
    requires
        record_wf(r),
    ensures
        spec_decode(spec_encode(r) + tail) == Ok::<RecordModel, CodecError>(r),
{
    lemma_auto_spec_u32_to_from_le_bytes();
    lemma_auto_spec_u64_to_from_le_bytes();
    lemma_tokens_bytes_len(r.approved_tokens);
    let e = spec_encode(r);
    let s = e + tail;
    let pc = r.permissions.len() as int;
    let tc = r.approved_tokens.len() as int;
    let flag: u8 = if r.is_initialized {
        1u8
    } else {
        0u8
    };
    assert(e.len() == 37 + pc + 4 + 40 * tc);
    assert(s.subrange(0, 32) =~= r.delegator_address);
    assert(s[32] == flag);
    assert(s.subrange(33, 37) =~= spec_u32_to_le_bytes(r.permissions.len() as u32));
    assert(spec_u32_from_le_bytes(s.subrange(33, 37)) == pc);
    assert(s.len() >= 37 + pc);
    assert(forall|i: int|
        0 <= i < pc ==> #[trigger] s[37 + i] == spec_perm_bytes(r.permissions)[i]);
    assert(forall|i: int| 0 <= i < pc ==> Permission::spec_from_byte(#[trigger] s[37 + i]) is Some);
    assert(s.subrange(37 + pc, 41 + pc) =~= spec_u32_to_le_bytes(r.approved_tokens.len() as u32));
    assert(spec_u32_from_le_bytes(s.subrange(37 + pc, 41 + pc)) == tc);
    assert(s.len() >= 41 + pc + 40 * tc);
    let d = RecordModel {
        delegator_address: s.subrange(0, 32),
        is_initialized: s[32] == 1,
        permissions: Seq::new(pc as nat, |i: int| Permission::spec_from_byte(s[37 + i])->Some_0),
        approved_tokens: Seq::new(tc as nat, |i: int| spec_token_at(s, 41 + pc + 40 * i)),
    };
    assert(spec_decode(s) == Ok::<RecordModel, CodecError>(d));
    assert(d.is_initialized == r.is_initialized);
    assert forall|i: int| 0 <= i < pc implies Seq::new(
        pc as nat,
        |k: int| Permission::spec_from_byte(s[37 + k])->Some_0,
    )[i] == r.permissions[i] by {
        let p = r.permissions[i];
        assert(p is Spend);
        assert(s[37 + i] == p.spec_to_byte());
    }
    assert(d.permissions =~= r.permissions);
    assert forall|i: int| 0 <= i < tc implies spec_token_at(s, 41 + pc + 40 * i)
        == r.approved_tokens[i] by {
        lemma_tokens_bytes_at(r.approved_tokens, i);
        let off = 41 + pc + 40 * i;
        let tb = spec_token_bytes(r.approved_tokens[i]);
        assert(tb.len() == 40);
        assert(s.subrange(off, off + 40) =~= spec_tokens_bytes(r.approved_tokens).subrange(
            40 * i,
            40 * i + 40,
        ));
        assert(s.subrange(off, off + 32) =~= s.subrange(off, off + 40).subrange(0, 32));
        assert(s.subrange(off + 32, off + 40) =~= s.subrange(off, off + 40).subrange(32, 40));
        assert(tb.subrange(0, 32) =~= r.approved_tokens[i].token_account);
        assert(tb.subrange(32, 40) =~= spec_u64_to_le_bytes(r.approved_tokens[i].allowance));
        assert(spec_token_at(s, off).token_account == r.approved_tokens[i].token_account);
        assert(spec_token_at(s, off).allowance == r.approved_tokens[i].allowance);
        assert(spec_token_at(s, off) =~= r.approved_tokens[i]);
    }
    assert(d.approved_tokens =~= r.approved_tokens);
    assert(d =~= r);
}

/// Round trip: decoding an exactly encoded record yields the record unchanged.
pub proof fn lemma_codec_round_trip(r: RecordModel)
    requires
        record_wf(r),
    ensures
        spec_decode(spec_encode(r)) == Ok::<RecordModel, CodecError>(r),
{
    lemma_decode_of_encode_with_tail(r, Seq::empty());
    assert(spec_encode(r) + Seq::<u8>::empty() =~= spec_encode(r));
}

/// Truncation safety: a buffer cut anywhere short of the full encoding fails
/// to decode with `TruncatedBuffer`, and with nothing else.
pub proof fn lemma_truncated_decode_fails(r: RecordModel, n: int)
    requires
        record_wf(r),
        0 <= n < spec_encoded_len(r),
    ensures
        spec_decode(spec_encode(r).take(n)) == Err::<RecordModel, CodecError>(
            CodecError::TruncatedBuffer,
        ),
{
    lemma_auto_spec_u32_to_from_le_bytes();
    lemma_tokens_bytes_len(r.approved_tokens);
    let e = spec_encode(r);
    let s = e.take(n);
    let pc = r.permissions.len() as int;
    let tc = r.approved_tokens.len() as int;
    assert(e.len() == 37 + pc + 4 + 40 * tc);
    assert(s.len() == n);
    if n < 37 {
    } else {
        let flag: u8 = if r.is_initialized {
            1u8
        } else {
            0u8
        };
        assert(s[32] == e[32]);
        assert(e[32] == flag);
        assert(s.subrange(33, 37) =~= spec_u32_to_le_bytes(r.permissions.len() as u32));
        assert(spec_u32_from_le_bytes(s.subrange(33, 37)) == pc);
        if n < 37 + pc {
        } else {
            assert(forall|i: int|
                0 <= i < pc ==> #[trigger] s[37 + i] == spec_perm_bytes(r.permissions)[i]);
            assert(forall|i: int|
                0 <= i < pc ==> Permission::spec_from_byte(#[trigger] s[37 + i]) is Some);
            if n < 41 + pc {
            } else {
                assert(s.subrange(37 + pc, 41 + pc) =~= spec_u32_to_le_bytes(
                    r.approved_tokens.len() as u32,
                ));
                assert(spec_u32_from_le_bytes(s.subrange(37 + pc, 41 + pc)) == tc);
                assert(s.len() < 41 + pc + 40 * tc);
            }
        }
    }
}

/// Whatever decodes successfully is a well-formed record.
pub proof fn lemma_decode_wf(s: Seq<u8>)
    ensures
        spec_decode(s) is Ok ==> record_wf(spec_decode(s)->Ok_0),
{
    if spec_decode(s) is Ok {
        let r = spec_decode(s)->Ok_0;
        assert(r.delegator_address.len() == 32);
        assert forall|i: int| 0 <= i < r.approved_tokens.len() implies (
        #[trigger] r.approved_tokens[i]).token_account.len() == 32 by {
            let pc = spec_u32_from_le_bytes(s.subrange(33, 37)) as int;
            assert(r.approved_tokens[i] == spec_token_at(s, 41 + pc + 40 * i));
        }
    }
}

/// Unknown-tag safety: a permission byte outside the known set makes decoding
/// fail with `UnknownPermissionTag`, never a process abort.
pub proof fn lemma_unknown_tag_decode_fails(s: Seq<u8>, i: int)
    requires
        s.len() >= 37,
        s[32] == 0 || s[32] == 1,
        37 + spec_u32_from_le_bytes(s.subrange(33, 37)) <= s.len(),
        0 <= i < spec_u32_from_le_bytes(s.subrange(33, 37)),
        Permission::spec_from_byte(s[37 + i]) is None,
    ensures
        spec_decode(s) == Err::<RecordModel, CodecError>(CodecError::UnknownPermissionTag),
{
    let pc = spec_u32_from_le_bytes(s.subrange(33, 37)) as int;
    assert(0 <= i < pc && Permission::spec_from_byte(#[trigger] s[37 + i]) is None);
}

impl ApprovedToken {
    /// Append this token's 40-byte encoding to `out`.
    #[verifier::loop_isolation(false)]
    fn append_to(&self, out: &mut Vec<u8>)
        ensures
            final(out)@ == old(out)@ + spec_token_bytes(self@),
    {
        let mut i: usize = 0;
        while i < 32
            invariant
                0 <= i <= 32,
                out@ == old(out)@ + self.token_account@.subrange(0, i as int),
            decreases 32 - i,
        {
            out.push(self.token_account[i]);
            i += 1;
            proof {
                assert(out@ =~= old(out)@ + self.token_account@.subrange(0, i as int));
            }
        }
        let mut ab = u64_to_le_bytes(self.allowance);
        out.append(&mut ab);
        proof {
            assert(self.token_account@.subrange(0, 32) =~= self.token_account@);
            assert(out@ =~= old(out)@ + spec_token_bytes(self@));
        }
    }
}

impl DelegatePermissions {
    /// The record's encoding, per [`spec_encode`].
    #[verifier::loop_isolation(false)]
    fn encode_bytes(&self) -> (out: Vec<u8>)
        requires
            record_wf(self@),
        ensures
            out@ == spec_encode(self@),
    {
        let mut out: Vec<u8> = Vec::new();
        let mut i: usize = 0;
        while i < 32
            invariant
                0 <= i <= 32,
                out@ == self.delegator_address@.subrange(0, i as int),
            decreases 32 - i,
        {
            out.push(self.delegator_address[i]);
            i += 1;
            proof {
                assert(out@ =~= self.delegator_address@.subrange(0, i as int));
            }
        }
        proof {
            assert(self.delegator_address@.subrange(0, 32) =~= self.delegator_address@);
        }
        out.push(
            if self.is_initialized {
                1u8
            } else {
                0u8
            },
        );
        let mut pcb = u32_to_le_bytes(self.permissions.len() as u32);
        out.append(&mut pcb);
        let ghost head2 = self.delegator_address@ + seq![
            if self.is_initialized {
                1u8
            } else {
                0u8
            },
        ] + spec_u32_to_le_bytes(self.permissions@.len() as u32);
        proof {
            assert(out@ =~= head2);
        }
        let mut k: usize = 0;
        while k < self.permissions.len()
            invariant
                0 <= k <= self.permissions@.len(),
                out@ == head2 + spec_perm_bytes(self.permissions@.subrange(0, k as int)),
            decreases self.permissions@.len() - k,
        {
            let p = self.permissions[k];
            out.push(p.to_byte());
            k += 1;
            proof {
                assert(out@ =~= head2 + spec_perm_bytes(self.permissions@.subrange(0, k as int)));
            }
        }
        proof {
            assert(self.permissions@.subrange(0, self.permissions@.len() as int)
                =~= self.permissions@);
        }
        let mut tcb = u32_to_le_bytes(self.approved_tokens.len() as u32);
        out.append(&mut tcb);
        let ghost head4 = head2 + spec_perm_bytes(self.permissions@) + spec_u32_to_le_bytes(
            self.approved_tokens@.len() as u32,
        );
        proof {
            assert(out@ =~= head4);
        }
        let mut j: usize = 0;
        while j < self.approved_tokens.len()
            invariant
                0 <= j <= self.approved_tokens@.len(),
                out@ == head4 + spec_tokens_bytes(self@.approved_tokens.subrange(0, j as int)),
            decreases self.approved_tokens@.len() - j,
        {
            let t = &self.approved_tokens[j];
            t.append_to(&mut out);
            j += 1;
            proof {
                let tsv = self@.approved_tokens;
                assert(tsv.subrange(0, j as int) =~= tsv.subrange(0, j - 1).push(tsv[j - 1]));
                lemma_tokens_bytes_snoc(tsv.subrange(0, j - 1), tsv[j - 1]);
                assert(out@ =~= head4 + spec_tokens_bytes(tsv.subrange(0, j as int)));
            }
        }
        proof {
            let tsv = self@.approved_tokens;
            assert(tsv.subrange(0, tsv.len() as int) =~= tsv);
            assert(out@ =~= spec_encode(self@));
        }
        out
    }

    /// Encode this record into the front of `dst`, leaving any trailing bytes
    /// unchanged; fails with `BufferTooSmall` if `dst` cannot hold it.
    #[verifier::loop_isolation(false)]
    pub fn pack_into_slice(&self, dst: &mut Vec<u8>) -> (r: Result<(), CodecError>)
        requires
            record_wf(self@),
        ensures
            match r {
                Ok(_) => old(dst)@.len() >= spec_encoded_len(self@) && final(dst)@ == spec_encode(
                    self@,
                ) + old(dst)@.skip(spec_encoded_len(self@)),
                Err(e) => e == CodecError::BufferTooSmall && old(dst)@.len() < spec_encoded_len(
                    self@,
                ) && final(dst)@ == old(dst)@,
            },
    {
        let needed: u64 = 41 + (self.permissions.len() as u64) + 40 * (self.approved_tokens.len()
            as u64);
        if (dst.len() as u64) < needed {
            return Err(CodecError::BufferTooSmall);
        }
        let enc = self.encode_bytes();
        proof {
            lemma_auto_spec_u32_to_from_le_bytes();
            lemma_tokens_bytes_len(self@.approved_tokens);
            assert(enc@.len() == spec_encoded_len(self@));
        }
        let mut i: usize = 0;
        while i < enc.len()
            invariant
                0 <= i <= enc@.len(),
                enc@.len() <= dst@.len(),
                dst@.len() == old(dst)@.len(),
                dst@ == enc@.subrange(0, i as int) + old(dst)@.skip(i as int),
            decreases enc@.len() - i,
        {
            let b = enc[i];
            dst[i] = b;
            i += 1;
            proof {
                assert(dst@ =~= enc@.subrange(0, i as int) + old(dst)@.skip(i as int));
            }
        }
        proof {
            assert(enc@.subrange(0, enc@.len() as int) =~= enc@);
            assert(dst@ =~= spec_encode(self@) + old(dst)@.skip(spec_encoded_len(self@)));
        }
        Ok(())
    }
}

impl DelegatePermissions {
    /// Decode a permission record from the account buffer, per [`spec_decode`].
    #[verifier::loop_isolation(false)]
    pub fn unpack_from_slice(src: &[u8]) -> (r: Result<DelegatePermissions, CodecError>)
        ensures
            match r {
                Ok(rec) => spec_decode(src@) == Ok::<RecordModel, CodecError>(rec@) && record_wf(
                    rec@,
                ),
                Err(e) => spec_decode(src@) == Err::<RecordModel, CodecError>(e),
            },
    {
        if src.len() < 37 {
            return Err(CodecError::TruncatedBuffer);
        }
        let flag = src[32];
        if flag != 0 && flag != 1 {
            return Err(CodecError::InvalidFlag);
        }
        let pc = u32_from_le_bytes(vstd::slice::slice_subrange(src, 33, 37)) as usize;
        if src.len() - 37 < pc {
            return Err(CodecError::TruncatedBuffer);
        }
        let mut permissions: Vec<Permission> = Vec::new();
        let mut i: usize = 0;
        while i < pc
            invariant
                0 <= i <= pc,
                37 + pc <= src@.len(),
                src@.len() <= usize::MAX,
                permissions@.len() == i,
                forall|j: int| 0 <= j < i ==> permissions@[j] == Permission::Spend,
                forall|j: int|
                    0 <= j < i ==> Permission::spec_from_byte(#[trigger] src@[37 + j]) is Some,
            decreases pc - i,
        {
            match Permission::from_byte(src[37 + i]) {
                Some(p) => permissions.push(p),
                None => {
                    proof {
                        let gi = i as int;
                        assert(0 <= gi < pc && Permission::spec_from_byte(src@[37 + gi]) is None);
                    }
                    return Err(CodecError::UnknownPermissionTag);
                },
            }
            i += 1;
        }
        if src.len() - 37 - pc < 4 {
            return Err(CodecError::TruncatedBuffer);
        }
        let tc = u32_from_le_bytes(vstd::slice::slice_subrange(src, 37 + pc, 41 + pc)) as usize;
        if ((src.len() - 41 - pc) as u64) < 40u64 * (tc as u64) {
            return Err(CodecError::TruncatedBuffer);
        }
        let mut approved_tokens: Vec<ApprovedToken> = Vec::new();
        let mut j: usize = 0;
        while j < tc
            invariant
                0 <= j <= tc,
                41 + pc + 40 * tc <= src@.len(),
                src@.len() <= usize::MAX,
                approved_tokens@.len() == j,
                forall|k: int|
                    0 <= k < j ==> (#[trigger] approved_tokens@[k])@ == spec_token_at(
                        src@,
                        41 + pc + 40 * k,
                    ),
            decreases tc - j,
        {
            let t = ApprovedToken::unpack_at(src, 41 + pc + 40 * j);
            approved_tokens.push(t);
            j += 1;
        }
        let mut delegator_address = [0u8; 32];
        let mut k: usize = 0;
        while k < 32
            invariant
                0 <= k <= 32,
                37 <= src@.len(),
                forall|m: int| 0 <= m < k ==> delegator_address@[m] == src@[m],
            decreases 32 - k,
        {
            delegator_address[k] = src[k];
            k += 1;
        }
        let rec = DelegatePermissions {
            delegator_address,
            is_initialized: flag == 1,
            permissions,
            approved_tokens,
        };
        proof {
            let s = src@;
            let pci = spec_u32_from_le_bytes(s.subrange(33, 37)) as int;
            let tci = spec_u32_from_le_bytes(s.subrange(37 + pci, 41 + pci)) as int;
            assert(pci == pc as int);
            assert(tci == tc as int);
            let expected = RecordModel {
                delegator_address: s.subrange(0, 32),
                is_initialized: s[32] == 1,
                permissions: Seq::new(
                    pci as nat,
                    |m: int| Permission::spec_from_byte(s[37 + m])->Some_0,
                ),
                approved_tokens: Seq::new(tci as nat, |m: int| spec_token_at(s, 41 + pci + 40 * m)),
            };
            assert(rec@.delegator_address =~= expected.delegator_address);
            assert(rec@.permissions =~= expected.permissions);
            assert(rec@.approved_tokens =~= expected.approved_tokens);
            assert(rec@ =~= expected);
            assert(spec_decode(s) == Ok::<RecordModel, CodecError>(expected));
        }
        Ok(rec)
    }
}

} // verus!
