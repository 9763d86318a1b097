//! What a transaction must be to pass, and whom it touches.
//!
//! The laws here put the rules of [`crate::types::tx`] in terms of what a transaction
//! holds, so that each rule can be read on its own.

use crate::crypto::address::Address;
use crate::crypto::hash::{digest, Domain};
use crate::crypto::keys::{
    signature_of, signed_by, verifying_key_of, PublicKey, SecretKey, Signature,
};
use crate::primitives::codec::Encode;
use crate::primitives::ids::Height;
use crate::primitives::order::lex_less;
use crate::types::account::key_views;
use crate::types::group::{group_complaint, GroupView};
use crate::types::tx::{
    body_complaint, checked, form_complaint, list_complaint, seed_views, signature_by, signer_keys,
    tx_complaint, BodyView, MessageView, Transaction, TxBody, TxError, TxFault, TxSigView, TxView,
};
use vstd::prelude::*;
use vstd::utf8::encode_utf8;

verus! {

/// A message moves nothing when it is one that moves an amount and the amount is zero:
/// a transfer, a contribution, a bond, an addition to a stake or a withdrawal of one.
/// No other message is held to that.
pub proof fn law_what_moves_nothing(m: MessageView)
    ensures
        m.moves_nothing() <==> {
            ||| m matches MessageView::Transfer { amount, .. } && amount.0 == 0
            ||| m matches MessageView::ContributeToGroup { amount, .. } && amount.0 == 0
            ||| m matches MessageView::Bond { amount, .. } && amount.0 == 0
            ||| m matches MessageView::AddStake { amount } && amount.0 == 0
            ||| m matches MessageView::Unbond { amount } && amount.0 == 0
        },
{
}

/// When a body is sound: one to sixty-four messages, a memo of at most 256 bytes, a fee
/// payer other than the sender, a fee above zero, and no message that moves nothing.
/// The first of these that fails, in that order, is the error.
pub proof fn law_when_a_body_is_sound(b: BodyView)
    ensures
        ({
            let nothing = exists|i: int|
                0 <= i < b.messages.len() && (#[trigger] b.messages[i]).moves_nothing();
            body_complaint(b) == if !(1 <= b.messages.len() <= 64) {
                Some(TxFault::MessageCount(b.messages.len() as usize))
            } else if encode_utf8(b.memo).len() > 256 {
                Some(TxFault::MemoTooLong)
            } else if b.fee.payer == Some(b.sender) {
                Some(TxFault::SelfSponsored)
            } else if b.fee.amount.0 == 0 {
                Some(TxFault::ZeroFee)
            } else if nothing {
                Some(TxFault::ZeroAmount)
            } else {
                None
            }
        }),
{
}

/// A list of signatures passes when the keys ascend and every one signs the document.
pub proof fn law_when_a_list_passes(list: Seq<TxSigView>, doc: Seq<u8>)
    ensures
        ({
            let ascending = forall|i: int, j: int|
                0 <= i < j < list.len() ==> lex_less(
                    #[trigger] list[i].public_key,
                    #[trigger] list[j].public_key,
                );
            let genuine = forall|i: int|
                0 <= i < list.len() ==> signed_by(
                    (#[trigger] list[i]).public_key,
                    Domain::TxSignDoc,
                    doc,
                    list[i].signature,
                );
            list_complaint(list, doc) == if !ascending {
                Some(TxFault::UnsortedSignatures)
            } else if !genuine {
                Some(TxFault::InvalidSignature)
            } else {
                None
            }
        }),
{
    let genuine = forall|i: int|
        0 <= i < list.len() ==> signed_by(
            (#[trigger] list[i]).public_key,
            Domain::TxSignDoc,
            doc,
            list[i].signature,
        );
    let forged = exists|i: int|
        0 <= i < list.len() && !signed_by(
            (#[trigger] list[i]).public_key,
            Domain::TxSignDoc,
            doc,
            list[i].signature,
        );
    assert(genuine <==> !forged);
}

/// When a transaction passes: its body is sound, it names this chain, it has not
/// expired, it carries one to thirty-two signatures and at most thirty-two of a sponsor,
/// the sponsor signs exactly when a payer is named, and both lists of signatures pass
/// over the body's encoding. It still passes at the last height it is valid for. The
/// first of these that fails, in that order, is the error.
pub proof fn law_when_a_transaction_passes(tx: TxView, chain_id: Seq<char>, height: Height)
    ensures
        ({
            let body = tx.body;
            let (own, others) = (tx.signatures, tx.sponsor_signatures);
            let doc = TxBody::bytes_of(body);
            tx_complaint(tx, chain_id, height) == if body_complaint(body) is Some {
                body_complaint(body)
            } else if body.chain_id != chain_id {
                Some(TxFault::WrongChain { signed: body.chain_id, expected: chain_id })
            } else if height.0 > body.valid_until.0 {
                Some(TxFault::Expired { valid_until: body.valid_until.0, current: height.0 })
            } else if !(1 <= own.len() <= 32) {
                Some(TxFault::SignatureCount(own.len() as usize))
            } else if others.len() > 32 {
                Some(TxFault::SignatureCount(others.len() as usize))
            } else if body.fee.payer is Some && others.len() == 0 || body.fee.payer is None
                && others.len() > 0 {
                Some(TxFault::SponsorSignatureMismatch)
            } else if list_complaint(own, doc) is Some {
                list_complaint(own, doc)
            } else {
                list_complaint(others, doc)
            }
        }),
{
}

/// Whom a transaction touches: its sender, and everybody that one of its messages names.
/// A message names the account it pays, the group it contributes to or pays out, every
/// member it founds a group with, the account it hands a name to, the account it binds a
/// contact to, and the validator it reports.
pub proof fn law_whom_a_transaction_touches(b: BodyView, a: Address)
    ensures
        b.touches(a) <==> a == b.sender || exists|i: int|
            0 <= i < b.messages.len() && {
                let m = #[trigger] b.messages[i];
                ||| m matches MessageView::Transfer { to, .. } && a == to
                ||| m matches MessageView::ContributeToGroup { group, .. } && a == group
                ||| m matches MessageView::GroupPayout { group } && a == group
                ||| m matches MessageView::CreateGroup { members, .. } && exists|j: int|
                    0 <= j < members.len() && (#[trigger] members[j]).address == a
                ||| m matches MessageView::TransferName { to, .. } && a == to
                ||| m matches MessageView::AttestContact { address, .. } && a == address
                ||| m matches MessageView::RequestRebind { new_address, .. } && a == new_address
                ||| m matches MessageView::ReportEquivocation { evidence } && a
                    == evidence.validator
            },
{
    let all = b.messages;
    if exists|i: int| 0 <= i < all.len() && (#[trigger] all[i]).names(a) {
        let i = choose|i: int| 0 <= i < all.len() && (#[trigger] all[i]).names(a);
        let m = all[i];
        assert(m.names(a));
    }
    assert forall|i: int|
        0 <= i < all.len() && {
            let m = #[trigger] all[i];
            ||| m matches MessageView::Transfer { to, .. } && a == to
            ||| m matches MessageView::ContributeToGroup { group, .. } && a == group
            ||| m matches MessageView::GroupPayout { group } && a == group
            ||| m matches MessageView::CreateGroup { members, .. } && exists|j: int|
                0 <= j < members.len() && (#[trigger] members[j]).address == a
            ||| m matches MessageView::TransferName { to, .. } && a == to
            ||| m matches MessageView::AttestContact { address, .. } && a == address
            ||| m matches MessageView::RequestRebind { new_address, .. } && a == new_address
            ||| m matches MessageView::ReportEquivocation { evidence } && a == evidence.validator
        } implies all[i].names(a) by {}
}

/// What is signed and what names a transaction: a signature is the key's over the digest
/// of the body's encoding, made for that purpose alone, and the identifier is the digest
/// of the whole transaction's encoding. The keys that signed are those of the
/// signatures, in their order.
pub proof fn law_what_is_signed(tx: TxView, seed: Seq<u8>, i: int)
    ensures
        tx.body.document() == TxBody::bytes_of(tx.body),
        tx.id() == digest(Domain::TxId, Transaction::bytes_of(tx)),
        ({
            let made = signature_by(tx.body.document(), seed);
            &&& made.public_key == verifying_key_of(seed)@
            &&& made.signature == Signature(
                signature_of(seed, digest(Domain::TxSignDoc, TxBody::bytes_of(tx.body)).0@),
            )
        }),
        signer_keys(tx.signatures).len() == tx.signatures.len(),
        0 <= i < tx.signatures.len() ==> signer_keys(tx.signatures)[i]
            == tx.signatures[i].public_key,
{
}

/// A transaction's form is right exactly when the counts of its signatures are and the
/// keys in both lists ascend.
pub proof fn law_when_a_form_is_right(tx: TxView)
    ensures
        form_complaint(tx) is None <==> {
            &&& 1 <= tx.signatures.len() <= 32
            &&& tx.sponsor_signatures.len() <= 32
            &&& forall|i: int, j: int|
                0 <= i < j < tx.signatures.len() ==> lex_less(
                    #[trigger] tx.signatures[i].public_key,
                    #[trigger] tx.signatures[j].public_key,
                )
            &&& forall|i: int, j: int|
                0 <= i < j < tx.sponsor_signatures.len() ==> lex_less(
                    #[trigger] tx.sponsor_signatures[i].public_key,
                    #[trigger] tx.sponsor_signatures[j].public_key,
                )
        },
{
}

/// A check says nothing where all is well, and otherwise what is wrong. Seeds, keys and
/// members are looked at in the order they are given in, and a group is sound when it
/// breaks no rule.
pub proof fn law_checks_say_what_is_wrong(
    e: TxError,
    seeds: Seq<&SecretKey>,
    keys: Seq<PublicKey>,
    g: GroupView,
    i: int,
)
    ensures
        checked(Ok(())) is None,
        checked(Err(e)) == Some(e.deep_view()),
        seed_views(seeds).len() == seeds.len(),
        0 <= i < seeds.len() ==> seed_views(seeds)[i] == seeds[i]@,
        key_views(keys).len() == keys.len(),
        0 <= i < keys.len() ==> key_views(keys)[i] == keys[i]@,
        g.sound() <==> group_complaint(
            g.name,
            g.members,
            g.contribution.amount,
            g.policy,
            g.quorum,
        ) is None,
{
}

} // verus!
