//! Plaintext values and their byte format.
//!
//! A plaintext is a literal or a struct of named plaintext members. On the
//! wire a literal is the tag `0` followed by the literal's bytes, and a struct
//! is the tag `1`, the number of members as one byte, and then each member:
//! its identifier (one length byte and the name), the length of its body as
//! two little-endian bytes, and the body, which is the member's value in this
//! same format. Because every body announces its length, a reader bounds a
//! body before it descends into it.

use crate::bytes::{
    append_bytes, bytes_equal, copy_range, lemma_u16_le, spec_u16_from_le, spec_u16_le,
    u16_from_le, u16_le,
};
use vstd::slice::slice_subrange;
use crate::codec::Codec;
use crate::error::StoreError;
use vstd::prelude::*;

verus! {

/// A member of a struct: its identifier and its value.
#[derive(Debug, PartialEq, Eq)]
pub struct Member {
    /// The name of the identifier.
    pub name: Vec<u8>,
    /// The value.
    pub value: Plaintext,
}

/// A plaintext value.
#[derive(Debug, PartialEq, Eq)]
pub enum Plaintext {
    /// A literal, as its serialized bytes.
    Literal(Vec<u8>),
    /// A struct: its members, in order. No two members share a name.
    Struct(Vec<Member>),
}

/// A member, as a mathematical value.
pub struct MemberView {
    /// The name of the identifier.
    pub name: Seq<u8>,
    /// The value.
    pub value: PlaintextView,
}

/// A plaintext, as a mathematical value.
pub enum PlaintextView {
    /// A literal, as its serialized bytes.
    Literal(Seq<u8>),
    /// A struct: its members, in order.
    Struct(Seq<MemberView>),
}

impl View for Member {
    type V = MemberView;

    open spec fn view(&self) -> MemberView
        decreases self,
    {
        MemberView { name: self.name@, value: self.value@ }
    }
}

impl View for Plaintext {
    type V = PlaintextView;

    open spec fn view(&self) -> PlaintextView
        decreases self,
    {
        match self {
            Plaintext::Literal(bytes) => PlaintextView::Literal(bytes@),
            Plaintext::Struct(members) => PlaintextView::Struct(
                Seq::new(
                    members@.len(),
                    |i: int|
                        if 0 <= i < members@.len() {
                            members@[i]@
                        } else {
                            arbitrary()
                        },
                ),
            ),
        }
    }
}

/// The views of a sequence of members.
pub open spec fn members_view(members: Seq<Member>) -> Seq<MemberView> {
    Seq::new(members.len(), |i: int| members[i]@)
}

/// The tag of a literal.
pub const TAG_LITERAL: u8 = 0;

/// The tag of a struct.
pub const TAG_STRUCT: u8 = 1;

/// The largest number of members that the one-byte count can announce, and
/// the largest length of a name that its one length byte can announce.
pub const MAX_COUNT: usize = 255;

/// The largest length of a body that its two length bytes can announce.
pub const MAX_BODY: usize = 65535;

/// Some member has the name.
pub open spec fn has_name(members: Seq<MemberView>, name: Seq<u8>) -> bool {
    exists|i: int| 0 <= i < members.len() && (#[trigger] members[i]).name == name
}

/// No two members share a name.
pub open spec fn names_distinct(members: Seq<MemberView>) -> bool {
    forall|i: int, j: int|
        0 <= i < members.len() && 0 <= j < members.len() && i != j ==> (#[trigger] members[i]).name
            != (#[trigger] members[j]).name
}

/// The bytes of a plaintext, or why it has none: a struct with more than 255
/// members, a name of more than 255 bytes or a body of more than 65535 bytes
/// is oversized, and a struct in which two members share a name cannot be
/// serialized.
pub open spec fn spec_encode(value: PlaintextView) -> Result<Seq<u8>, StoreError>
    decreases value, 0nat,
{
    match value {
        PlaintextView::Literal(bytes) => Ok(seq![TAG_LITERAL] + bytes),
        PlaintextView::Struct(members) => if members.len() > MAX_COUNT {
            Err(StoreError::OversizedContainer)
        } else if !names_distinct(members) {
            Err(StoreError::Serialize)
        } else {
            match spec_encode_members(members, members.len()) {
                Ok(body) => Ok(seq![TAG_STRUCT, members.len() as u8] + body),
                Err(e) => Err(e),
            }
        },
    }
}

/// The bytes of the first `n` members, one after the other, or the error of
/// the first member that has none.
pub open spec fn spec_encode_members(members: Seq<MemberView>, n: nat) -> Result<
    Seq<u8>,
    StoreError,
>
    decreases members, n,
{
    if n == 0 || n > members.len() {
        Ok(Seq::empty())
    } else {
        match spec_encode_members(members, (n - 1) as nat) {
            Ok(before) => match spec_encode_member(members[n - 1]) {
                Ok(bytes) => Ok(before + bytes),
                Err(e) => Err(e),
            },
            Err(e) => Err(e),
        }
    }
}

/// The bytes of one member: the length of the name, the name, the length of
/// the body, the body.
pub open spec fn spec_encode_member(member: MemberView) -> Result<Seq<u8>, StoreError>
    decreases member, 0nat,
{
    if member.name.len() > MAX_COUNT {
        Err(StoreError::OversizedContainer)
    } else {
        match spec_encode(member.value) {
            Ok(body) => if body.len() > MAX_BODY {
                Err(StoreError::OversizedContainer)
            } else {
                Ok(
                    seq![member.name.len() as u8] + member.name + spec_u16_le(body.len() as u16)
                        + body,
                )
            },
            Err(e) => Err(e),
        }
    }
}

/// The members after one more member is read: a name that is already there
/// keeps its place and takes the new value, a new name goes last.
pub open spec fn with_member(members: Seq<MemberView>, member: MemberView) -> Seq<MemberView> {
    if has_name(members, member.name) {
        let at = choose|i: int| 0 <= i < members.len() && (#[trigger] members[i]).name == member.name;
        members.update(at, member)
    } else {
        members.push(member)
    }
}

/// The plaintext that a byte string spells, or why it spells none: a byte
/// string that ends early does not deserialize, and a tag other than `0` and
/// `1` is an unknown variant. A literal takes all the bytes after its tag.
pub open spec fn spec_decode(bytes: Seq<u8>) -> Result<PlaintextView, StoreError>
    decreases bytes.len(), 0nat,
{
    if bytes.len() == 0 {
        Err(StoreError::Deserialize)
    } else if bytes[0] == TAG_LITERAL {
        Ok(PlaintextView::Literal(bytes.skip(1)))
    } else if bytes[0] == TAG_STRUCT {
        if bytes.len() < 2 {
            Err(StoreError::Deserialize)
        } else {
            match spec_decode_members(bytes.skip(2), bytes[1] as nat) {
                Ok((members, _)) => Ok(PlaintextView::Struct(members)),
                Err(e) => Err(e),
            }
        }
    } else {
        Err(StoreError::UnknownVariant(bytes[0]))
    }
}

/// The first `count` members that a byte string spells, with the number of
/// bytes that they take, or the error of the first member that it does not
/// spell.
pub open spec fn spec_decode_members(bytes: Seq<u8>, count: nat) -> Result<
    (Seq<MemberView>, nat),
    StoreError,
>
    decreases bytes.len(), count,
{
    if count == 0 {
        Ok((Seq::empty(), 0))
    } else {
        match spec_decode_members(bytes, (count - 1) as nat) {
            Ok((members, used)) => match spec_decode_member(bytes, used) {
                Ok((member, end)) => Ok((with_member(members, member), end)),
                Err(e) => Err(e),
            },
            Err(e) => Err(e),
        }
    }
}

/// The member that a byte string spells from position `at` on, with the
/// position after it.
pub open spec fn spec_decode_member(bytes: Seq<u8>, at: nat) -> Result<(MemberView, nat), StoreError>
    decreases bytes.len(), 0nat,
{
    if at + 1 > bytes.len() {
        Err(StoreError::Deserialize)
    } else {
        let name_len = bytes[at as int] as nat;
        let body_at = (at + 1 + name_len + 2) as nat;
        if body_at > bytes.len() {
            Err(StoreError::Deserialize)
        } else {
            let name = bytes.subrange(at as int + 1, at as int + 1 + name_len);
            let body_len = spec_u16_from_le(bytes[body_at - 2], bytes[body_at - 1]) as nat;
            if body_at + body_len > bytes.len() {
                Err(StoreError::Deserialize)
            } else {
                match spec_decode(bytes.subrange(body_at as int, body_at as int + body_len)) {
                    Ok(value) => Ok((MemberView { name, value }, (body_at + body_len) as nat)),
                    Err(e) => Err(e),
                }
            }
        }
    }
}

/// The view of a struct is the views of its members.
pub proof fn lemma_struct_view(value: Plaintext)
    requires
        value is Struct,
    ensures
        value@ == PlaintextView::Struct(members_view(value->Struct_0@)),
{
    let members = value->Struct_0@;
    assert(value@->Struct_0 =~= members_view(members));
}

/// Once a member has no bytes, no longer beginning of the members has any,
/// and the error stays that of the first such member.
pub proof fn lemma_encode_members_error(members: Seq<MemberView>, k: nat, n: nat)
    requires
        k <= n <= members.len(),
        spec_encode_members(members, k) is Err,
    ensures
        spec_encode_members(members, n) == spec_encode_members(members, k),
    decreases n,
{
    if k < n {
        lemma_encode_members_error(members, k, (n - 1) as nat);
    }
}

/// Tells whether no two members share a name.
pub fn names_are_distinct(members: &Vec<Member>) -> (r: bool)
    ensures
        r == names_distinct(members_view(members@)),
{
    let ghost views = members_view(members@);
    let mut i: usize = 0;
    while i < members.len()
        invariant
            i <= members@.len(),
            views == members_view(members@),
            forall|a: int, b: int|
                0 <= a < i && 0 <= b < a ==> (#[trigger] views[a]).name != (#[trigger] views[b]).name,
        decreases members@.len() - i,
    {
        let mut j: usize = 0;
        while j < i
            invariant
                j <= i < members@.len(),
                views == members_view(members@),
                forall|b: int| 0 <= b < j ==> views[i as int].name != (#[trigger] views[b]).name,
            decreases i - j,
        {
            if bytes_equal(members[i].name.as_slice(), members[j].name.as_slice()) {
                assert(views[i as int].name == views[j as int].name);
                return false;
            }
            j += 1;
        }
        i += 1;
    }
    assert forall|a: int, b: int|
        0 <= a < views.len() && 0 <= b < views.len() && a != b implies (#[trigger] views[a]).name != (
    #[trigger] views[b]).name by {
        if b < a {
        } else {
            assert(views[b].name != views[a].name);
        }
    }
    true
}

impl Plaintext {
    /// Returns the bytes of the plaintext. Fails with `OversizedContainer`
    /// where a struct has more than 255 members, a name more than 255 bytes or
    /// a body more than 65535 bytes, and with `Serialize` where two members
    /// of a struct share a name.
    pub fn to_bytes_le(&self) -> (r: Result<Vec<u8>, StoreError>)
        ensures
            match spec_encode(self@) {
                Ok(bytes) => r matches Ok(out) && out@ == bytes,
                Err(e) => r matches Err(f) && f == e,
            },
        decreases self,
    {
        match self {
            Plaintext::Literal(bytes) => {
                let mut out: Vec<u8> = Vec::new();
                out.push(TAG_LITERAL);
                append_bytes(&mut out, bytes.as_slice());
                assert(out@ =~= seq![TAG_LITERAL] + bytes@);
                Ok(out)
            },
            Plaintext::Struct(members) => {
                proof {
                    lemma_struct_view(*self);
                }
                let ghost views = members_view(members@);
                if members.len() > MAX_COUNT {
                    return Err(StoreError::OversizedContainer);
                }
                if !names_are_distinct(members) {
                    return Err(StoreError::Serialize);
                }
                let mut out: Vec<u8> = Vec::new();
                out.push(TAG_STRUCT);
                out.push(members.len() as u8);
                let mut i: usize = 0;
                assert(out@.skip(2) =~= Seq::<u8>::empty());
                assert(out@.take(2) =~= seq![TAG_STRUCT, members@.len() as u8]);
                while i < members.len()
                    invariant
                        i <= members@.len() <= MAX_COUNT,
                        views == members_view(members@),
                        *self == Plaintext::Struct(*members),
                        self@ == PlaintextView::Struct(views),
                        names_distinct(views),
                        out@.len() >= 2,
                        out@.take(2) == seq![TAG_STRUCT, members@.len() as u8],
                        spec_encode_members(views, i as nat) == Ok::<Seq<u8>, StoreError>(
                            out@.skip(2),
                        ),
                    decreases members@.len() - i,
                {
                    let member = &members[i];
                    let ghost before = out@;
                    proof {
                        assert(views[i as int] == member@);
                    }
                    if member.name.len() > MAX_COUNT {
                        proof {
                            assert(spec_encode_members(views, (i + 1) as nat) is Err);
                            lemma_encode_members_error(views, (i + 1) as nat, views.len());
                        }
                        return Err(StoreError::OversizedContainer);
                    }
                    let body = match member.value.to_bytes_le() {
                        Ok(body) => body,
                        Err(e) => {
                            proof {
                                assert(spec_encode_members(views, (i + 1) as nat) is Err);
                                lemma_encode_members_error(views, (i + 1) as nat, views.len());
                            }
                            return Err(e);
                        },
                    };
                    if body.len() > MAX_BODY {
                        proof {
                            assert(spec_encode_members(views, (i + 1) as nat) is Err);
                            lemma_encode_members_error(views, (i + 1) as nat, views.len());
                        }
                        return Err(StoreError::OversizedContainer);
                    }
                    out.push(member.name.len() as u8);
                    append_bytes(&mut out, member.name.as_slice());
                    let width = u16_le(body.len() as u16);
                    append_bytes(&mut out, width.as_slice());
                    append_bytes(&mut out, body.as_slice());
                    proof {
                        let bytes = spec_encode_member(views[i as int])->Ok_0;
                        assert(out@ =~= before + bytes);
                        assert(out@.skip(2) =~= before.skip(2) + bytes);
                        assert(out@.take(2) =~= before.take(2));
                    }
                    i += 1;
                }
                proof {
                    assert(out@ =~= out@.take(2) + out@.skip(2));
                }
                Ok(out)
            },
        }
    }

    /// Writes the plaintext to the end of `sink`. Fails as `to_bytes_le`
    /// does, and then leaves `sink` as it was.
    pub fn write_le(&self, sink: &mut Vec<u8>) -> (r: Result<(), StoreError>)
        ensures
            match spec_encode(self@) {
                Ok(bytes) => r is Ok && final(sink)@ == old(sink)@ + bytes,
                Err(e) => r == Err::<(), StoreError>(e) && final(sink)@ == old(sink)@,
            },
    {
        match self.to_bytes_le() {
            Ok(bytes) => {
                append_bytes(sink, bytes.as_slice());
                Ok(())
            },
            Err(e) => Err(e),
        }
    }
}

/// Reading `count + 1` members is reading `count` and then one more where
/// they end.
pub proof fn lemma_decode_next(bytes: Seq<u8>, count: nat)
    ensures
        spec_decode_members(bytes, count + 1) == match spec_decode_members(bytes, count) {
            Ok((members, used)) => match spec_decode_member(bytes, used) {
                Ok((member, end)) => Ok((with_member(members, member), end)),
                Err(e) => Err(e),
            },
            Err(e) => Err(e),
        },
{
    assert((count + 1 - 1) as nat == count);
}

/// Once a member cannot be read, no longer run of members can, and the
/// error stays that of the first such member.
pub proof fn lemma_decode_members_error(bytes: Seq<u8>, k: nat, n: nat)
    requires
        k <= n,
        spec_decode_members(bytes, k) is Err,
    ensures
        spec_decode_members(bytes, n) == spec_decode_members(bytes, k),
    decreases n,
{
    if k < n {
        lemma_decode_members_error(bytes, k, (n - 1) as nat);
    }
}

/// Reading one more member keeps names distinct.
pub proof fn lemma_with_member_distinct(members: Seq<MemberView>, member: MemberView)
    requires
        names_distinct(members),
    ensures
        names_distinct(with_member(members, member)),
        with_member(members, member).len() <= members.len() + 1,
{
    let after = with_member(members, member);
    if has_name(members, member.name) {
        let at = choose|i: int|
            0 <= i < members.len() && (#[trigger] members[i]).name == member.name;
        assert forall|i: int, j: int|
            0 <= i < after.len() && 0 <= j < after.len() && i != j implies (#[trigger] after[i]).name
            != (#[trigger] after[j]).name by {
            assert(after[i].name == members[i].name);
            assert(after[j].name == members[j].name);
        }
    } else {
        assert forall|i: int, j: int|
            0 <= i < after.len() && 0 <= j < after.len() && i != j implies (#[trigger] after[i]).name
            != (#[trigger] after[j]).name by {
            if i < members.len() {
                assert(after[i] == members[i]);
            }
            if j < members.len() {
                assert(after[j] == members[j]);
            }
        }
    }
}

/// Puts a member that was read into the members read so far: a name that is
/// already there keeps its place and takes the new value, a new name goes
/// last.
pub fn insert_member(members: &mut Vec<Member>, member: Member)
    requires
        names_distinct(members_view(old(members)@)),
    ensures
        members_view(final(members)@) == with_member(members_view(old(members)@), member@),
        names_distinct(members_view(final(members)@)),
{
    let ghost views = members_view(members@);
    proof {
        lemma_with_member_distinct(views, member@);
    }
    let mut i: usize = 0;
    while i < members.len()
        invariant
            i <= members@.len(),
            members@ == old(members)@,
            views == members_view(members@),
            names_distinct(views),
            names_distinct(with_member(views, member@)),
            forall|j: int| 0 <= j < i ==> (#[trigger] views[j]).name != member@.name,
        decreases members@.len() - i,
    {
        if bytes_equal(members[i].name.as_slice(), member.name.as_slice()) {
            proof {
                assert(views[i as int].name == member@.name);
                let at = choose|j: int|
                    0 <= j < views.len() && (#[trigger] views[j]).name == member@.name;
                assert(at == i);
            }
            let ghost shown = member@;
            members.set(i, member);
            assert(members_view(members@) =~= views.update(i as int, shown));
            return ;
        }
        i += 1;
    }
    let ghost shown = member@;
    members.push(member);
    assert(members_view(members@) =~= views.push(shown));
}

impl Plaintext {
    /// Reads a plaintext from `bytes`. Fails with `Deserialize` where the
    /// bytes end early, and with `UnknownVariant` where a tag is neither that
    /// of a literal nor that of a struct. A literal takes all the bytes after
    /// its tag; bytes after the last member of a struct are left unread.
    pub fn read_le(bytes: &[u8]) -> (r: Result<Plaintext, StoreError>)
        ensures
            match spec_decode(bytes@) {
                Ok(value) => r matches Ok(read) && read@ == value,
                Err(e) => r matches Err(f) && f == e,
            },
        decreases bytes@.len(),
    {
        if bytes.len() == 0 {
            return Err(StoreError::Deserialize);
        }
        let tag = bytes[0];
        if tag == TAG_LITERAL {
            let literal = copy_range(bytes, 1, bytes.len());
            return Ok(Plaintext::Literal(literal));
        }
        if tag != TAG_STRUCT {
            return Err(StoreError::UnknownVariant(tag));
        }
        if bytes.len() < 2 {
            return Err(StoreError::Deserialize);
        }
        let count: usize = bytes[1] as usize;
        let rest = slice_subrange(bytes, 2, bytes.len());
        let mut members: Vec<Member> = Vec::new();
        let mut at: usize = 0;
        let mut i: usize = 0;
        assert(members_view(members@) =~= Seq::<MemberView>::empty());
        while i < count
            invariant
                i <= count,
                at <= rest@.len(),
                bytes@.len() >= 2,
                bytes@[0] == TAG_STRUCT,
                count == bytes@[1],
                rest@ == bytes@.skip(2),
                names_distinct(members_view(members@)),
                spec_decode_members(rest@, i as nat) == Ok::<(Seq<MemberView>, nat), StoreError>(
                    (members_view(members@), at as nat),
                ),
            decreases count - i,
        {
            if at >= rest.len() {
                proof {
                    lemma_decode_next(rest@, i as nat);
                    lemma_decode_members_error(rest@, (i + 1) as nat, count as nat);
                }
                return Err(StoreError::Deserialize);
            }
            let name_len: usize = rest[at] as usize;
            if rest.len() - at - 1 < name_len + 2 {
                proof {
                    lemma_decode_next(rest@, i as nat);
                    lemma_decode_members_error(rest@, (i + 1) as nat, count as nat);
                }
                return Err(StoreError::Deserialize);
            }
            let name = copy_range(rest, at + 1, at + 1 + name_len);
            let body_at: usize = at + 1 + name_len + 2;
            let body_len: usize = u16_from_le(rest[body_at - 2], rest[body_at - 1]) as usize;
            if rest.len() - body_at < body_len {
                proof {
                    lemma_decode_next(rest@, i as nat);
                    lemma_decode_members_error(rest@, (i + 1) as nat, count as nat);
                }
                return Err(StoreError::Deserialize);
            }
            let body = slice_subrange(rest, body_at, body_at + body_len);
            let value = match Plaintext::read_le(body) {
                Ok(value) => value,
                Err(e) => {
                    proof {
                        assert(spec_decode_members(rest@, (i + 1) as nat) is Err);
                        lemma_decode_members_error(rest@, (i + 1) as nat, count as nat);
                    }
                    return Err(e);
                },
            };
            proof {
                lemma_decode_next(rest@, i as nat);
            }
            insert_member(&mut members, Member { name, value });
            at = body_at + body_len;
            i += 1;
        }
        let read = Plaintext::Struct(members);
        proof {
            lemma_struct_view(read);
        }
        Ok(read)
    }
}

/// Round trip: reading the bytes of a plaintext gives the plaintext back.
pub proof fn lemma_round_trip(value: PlaintextView)
    requires
        spec_encode(value) is Ok,
    ensures
        spec_decode(spec_encode(value)->Ok_0) == Ok::<PlaintextView, StoreError>(value),
    decreases value, 0nat,
{
    let bytes = spec_encode(value)->Ok_0;
    match value {
        PlaintextView::Literal(literal) => {
            assert(bytes.skip(1) =~= literal);
        },
        PlaintextView::Struct(members) => {
            let body = spec_encode_members(members, members.len())->Ok_0;
            assert(bytes.skip(2) =~= body);
            assert(bytes[1] == members.len());
            assert(body =~= body.subrange(0, body.len() as int));
            lemma_members_round_trip(members, members.len(), body);
            assert(members.take(members.len() as int) =~= members);
        },
    }
}

/// Round trip of members: where a byte string begins with the bytes of the
/// first `n` members of a struct, reading `n` members from it gives those
/// members back and ends where their bytes end.
pub proof fn lemma_members_round_trip(members: Seq<MemberView>, n: nat, bytes: Seq<u8>)
    requires
        n <= members.len(),
        names_distinct(members),
        spec_encode_members(members, n) is Ok,
        spec_encode_members(members, n)->Ok_0.is_prefix_of(bytes),
    ensures
        spec_decode_members(bytes, n) == Ok::<(Seq<MemberView>, nat), StoreError>(
            (members.take(n as int), spec_encode_members(members, n)->Ok_0.len()),
        ),
    decreases members, n,
{
    if n == 0 {
        assert(members.take(0) =~= Seq::<MemberView>::empty());
    } else {
        let k = (n - 1) as nat;
        let whole = spec_encode_members(members, n)->Ok_0;
        let before = spec_encode_members(members, k)->Ok_0;
        let member = members[n - 1];
        let part = spec_encode_member(member)->Ok_0;
        let body = spec_encode(member.value)->Ok_0;
        assert(whole == before + part);
        assert(whole =~= bytes.subrange(0, whole.len() as int));
        assert(before =~= bytes.subrange(0, before.len() as int)) by {
            assert(before =~= whole.subrange(0, before.len() as int));
        }
        lemma_members_round_trip(members, k, bytes);
        lemma_round_trip(member.value);
        lemma_u16_le(body.len() as u16, 0);
        let at = before.len() as int;
        let name_len = member.name.len() as int;
        let body_at = (at + 1 + name_len + 2) as nat;
        assert(part.len() == 1 + name_len + 2 + body.len());
        assert forall|j: int| 0 <= j < part.len() implies bytes[at + j] == part[j] by {
            assert(whole[at + j] == part[j]);
            assert(bytes.subrange(0, whole.len() as int)[at + j] == bytes[at + j]);
        }
        assert(bytes[at] == name_len as u8) by {
            assert(part[0] == name_len as u8);
        }
        assert(bytes.subrange(at + 1, at + 1 + name_len) =~= member.name) by {
            assert forall|j: int| 0 <= j < name_len implies bytes[at + 1 + j] == member.name[j] by {
                assert(part[1 + j] == member.name[j]);
            }
        }
        assert(bytes[body_at - 2] == spec_u16_le(body.len() as u16)[0]) by {
            assert(part[1 + name_len] == spec_u16_le(body.len() as u16)[0]);
        }
        assert(bytes[body_at - 1] == spec_u16_le(body.len() as u16)[1]) by {
            assert(part[1 + name_len + 1] == spec_u16_le(body.len() as u16)[1]);
        }
        assert(bytes.subrange(body_at as int, body_at as int + body.len()) =~= body) by {
            assert forall|j: int| 0 <= j < body.len() implies bytes[body_at + j] == body[j] by {
                assert(part[1 + name_len + 2 + j] == body[j]);
            }
        }
        assert(spec_decode_member(bytes, at as nat) == Ok::<(MemberView, nat), StoreError>(
            (member, (body_at + body.len()) as nat),
        ));
        let earlier = members.take(k as int);
        assert(!has_name(earlier, member.name)) by {
            if has_name(earlier, member.name) {
                let i = choose|i: int|
                    0 <= i < earlier.len() && (#[trigger] earlier[i]).name == member.name;
                assert(earlier[i] == members[i]);
            }
        }
        assert(with_member(earlier, member) =~= members.take(n as int));
        lemma_decode_next(bytes, k);
    }
}

impl Codec for Plaintext {
    open spec fn encoding(value: PlaintextView) -> Option<Seq<u8>> {
        match spec_encode(value) {
            Ok(bytes) => Some(bytes),
            Err(_) => None,
        }
    }

    open spec fn decoding(bytes: Seq<u8>) -> Option<PlaintextView> {
        match spec_decode(bytes) {
            Ok(value) => Some(value),
            Err(_) => None,
        }
    }

    fn encode(&self) -> (r: Option<Vec<u8>>) {
        match self.to_bytes_le() {
            Ok(bytes) => Some(bytes),
            Err(_) => None,
        }
    }

    fn decode(bytes: &[u8]) -> (r: Option<Plaintext>) {
        match Plaintext::read_le(bytes) {
            Ok(value) => Some(value),
            Err(_) => None,
        }
    }

    proof fn lemma_round_trip(value: PlaintextView) {
        self::lemma_round_trip(value);
    }
}

} // verus!
