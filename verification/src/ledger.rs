//! The mail ledger: send, read, contacts and tipping.
//!
//! The hosting ledger resolves the caller's identity, supplies the block
//! timestamp and holds the balances, so every operation takes those values as
//! plain arguments. `Mail` is viewed as a [`MailModel`], a purely mathematical
//! image of the storage tables, and every operation's contract describes the
//! new model as a function of the old one.

use crate::account::AccountId;
use crate::derivation::{
    ascii_bytes_of, ascii_chars_of, classifier_of, code_wf, is_ws_byte, mask_of, next_code_of,
    phrase_ok, string_from_ascii, strip_ws_vec, u64_to_dec, append_range, lemma_dec_str_props,
    CODE_CAP,
};
use crate::tables::{AcctTable, StrTable};
use vstd::prelude::*;
use vstd::string::StringSliceAdditionalSpecFns;

verus! {

broadcast use vstd::string::is_ascii_spec_bytes, vstd::utf8::is_ascii_chars_nat_bound;

/// The mathematical image of the ledger's storage.
#[verifier::ext_equal]
pub ghost struct MailModel {
    /// The rolling state string, as bytes.
    pub code: Seq<u8>,
    /// Mail ids sent, per account.
    pub sent: Map<AccountId, Seq<Seq<char>>>,
    /// Mail ids received, per account.
    pub received: Map<AccountId, Seq<Seq<char>>>,
    /// Contact lists, per account.
    pub contacts: Map<AccountId, Seq<AccountId>>,
    /// Send timestamp, per mail id.
    pub timestamps: Map<Seq<char>, u64>,
    /// Classifier values, per mail id.
    pub algos: Map<Seq<char>, Seq<u8>>,
    /// Derived mask, per mail id.
    pub masks: Map<Seq<char>, Seq<char>>,
}

/// Failures of the gated mask/classifier reader.
#[derive(Clone, Copy, PartialEq, Eq, Structural, Debug)]
pub enum MailError {
    /// No mail with the queried id exists.
    NotFound,
    /// The caller neither sent nor received the queried mail.
    Unauthorized,
}

/// Failures of the tip operation.
#[derive(Clone, Copy, PartialEq, Eq, Structural, Debug)]
pub enum TipError {
    /// The value attached to the call differs from the tipped amount.
    ValueMismatch,
    /// The tipped amount exceeds the contract's balance.
    InsufficientFunds,
    /// The host could not complete the transfer.
    TransferFailed,
}

/// A transfer the host must carry out to complete a tip.
#[derive(Clone, Copy, PartialEq, Eq, Structural, Debug)]
pub struct TipOrder {
    pub to: AccountId,
    pub amount: u128,
}

impl MailModel {
    /// The sent index of `a`: empty until `a` first sends.
    pub open spec fn sent_of(self, a: AccountId) -> Seq<Seq<char>> {
        if self.sent.contains_key(a) {
            self.sent[a]
        } else {
            Seq::empty()
        }
    }

    /// The received index of `a`: empty until `a` first receives.
    pub open spec fn received_of(self, a: AccountId) -> Seq<Seq<char>> {
        if self.received.contains_key(a) {
            self.received[a]
        } else {
            Seq::empty()
        }
    }

    /// The contact list of `a`: empty until `a` first adds a contact.
    pub open spec fn contacts_of(self, a: AccountId) -> Seq<AccountId> {
        if self.contacts.contains_key(a) {
            self.contacts[a]
        } else {
            Seq::empty()
        }
    }

    /// The ledger's invariant: the three per-mail tables share one key set,
    /// every id indexed as sent or received has a record, every stored
    /// classifier holds three values below 3, and the rolling state is
    /// well-formed.
    pub open spec fn wf(self) -> bool {
        &&& self.algos.dom() == self.timestamps.dom()
        &&& self.masks.dom() == self.timestamps.dom()
        &&& forall|a: AccountId, i: int|
            0 <= i < self.sent_of(a).len() ==> self.timestamps.contains_key(
                #[trigger] self.sent_of(a)[i],
            )
        &&& forall|a: AccountId, i: int|
            0 <= i < self.received_of(a).len() ==> self.timestamps.contains_key(
                #[trigger] self.received_of(a)[i],
            )
        &&& forall|id: Seq<char>| #[trigger]
            self.algos.contains_key(id) ==> self.algos[id].len() == 3 && (forall|j: int|
                0 <= j < 3 ==> #[trigger] self.algos[id][j] < 3)
        &&& code_wf(self.code)
    }

    /// The ledger after a successful send: the id is appended to the
    /// sender's and recipient's indices, the timestamp, classifier and mask
    /// are recorded under the id, and the rolling state advances.
    pub open spec fn after_send(
        self,
        from: AccountId,
        to: AccountId,
        id: Seq<char>,
        phrase: Seq<char>,
        now: u64,
    ) -> MailModel {
        let p = ascii_bytes_of(phrase);
        MailModel {
            code: next_code_of(p, self.code),
            sent: self.sent.insert(from, self.sent_of(from).push(id)),
            received: self.received.insert(to, self.received_of(to).push(id)),
            contacts: self.contacts,
            timestamps: self.timestamps.insert(id, now),
            algos: self.algos.insert(id, classifier_of(p)),
            masks: self.masks.insert(id, ascii_chars_of(mask_of(now, p, self.code))),
        }
    }

    /// The ledger after a contact addition.
    pub open spec fn after_add_contact(self, caller: AccountId, add: AccountId) -> MailModel {
        MailModel {
            contacts: self.contacts.insert(caller, self.contacts_of(caller).push(add)),
            ..self
        }
    }
}

/// What the gated reader returns: the stored mask and classifier when the
/// mail exists and the caller sent or received it, and the exact error
/// otherwise.
pub open spec fn read_result(m: MailModel, caller: AccountId, id: Seq<char>) -> Result<
    (Seq<char>, Seq<u8>),
    MailError,
> {
    if !m.masks.contains_key(id) || !m.algos.contains_key(id) {
        Err(MailError::NotFound)
    } else if !m.sent_of(caller).contains(id) && !m.received_of(caller).contains(id) {
        Err(MailError::Unauthorized)
    } else {
        Ok((m.masks[id], m.algos[id]))
    }
}

/// The mathematical value of the reader's result.
pub open spec fn result_view(r: Result<(String, Vec<u8>), MailError>) -> Result<
    (Seq<char>, Seq<u8>),
    MailError,
> {
    match r {
        Ok(p) => Ok((p.0@, p.1@)),
        Err(e) => Err(e),
    }
}

/// The tip decision: the attached value must equal the amount exactly, and
/// the amount must not exceed the contract's balance; then the host is asked
/// to transfer the amount to the contact.
pub open spec fn tip_decision(ctct: AccountId, amt: u128, attached: u128, balance: u128) -> Result<
    TipOrder,
    TipError,
> {
    if attached != amt {
        Err(TipError::ValueMismatch)
    } else if amt > balance {
        Err(TipError::InsufficientFunds)
    } else {
        Ok((TipOrder { to: ctct, amount: amt }))
    }
}

/// Copies a vector of plain values.
fn copy_vec<T: Copy>(v: &Vec<T>) -> (r: Vec<T>)
    ensures
        r@ == v@,
{
    let mut r: Vec<T> = Vec::new();
    let mut i: usize = 0;
    while i < v.len()
        invariant
            i <= v@.len(),
            r@ == v@.subrange(0, i as int),
        decreases v@.len() - i,
    {
        r.push(v[i]);
        proof {
            assert(r@ =~= v@.subrange(0, i + 1));
        }
        i += 1;
    }
    proof {
        assert(v@.subrange(0, v@.len() as int) =~= v@);
    }
    r
}

/// Clones a vector of strings; `String::clone` keeps the value, so the copy
/// equals the source vector.
fn clone_string_vec(v: &Vec<String>) -> (r: Vec<String>)
    ensures
        r@ == v@,
{
    let mut r: Vec<String> = Vec::new();
    let mut i: usize = 0;
    while i < v.len()
        invariant
            i <= v@.len(),
            r@ == v@.subrange(0, i as int),
        decreases v@.len() - i,
    {
        r.push(v[i].clone());
        proof {
            assert(r@ =~= v@.subrange(0, i + 1));
        }
        i += 1;
    }
    proof {
        assert(v@.subrange(0, v@.len() as int) =~= v@);
    }
    r
}

/// Whether some string in `v` has the value of `x`.
fn contains_string(v: &Vec<String>, x: &String) -> (r: bool)
    ensures
        r == v.deep_view().contains(x@),
{
    let mut i: usize = 0;
    while i < v.len()
        invariant
            i <= v@.len(),
            forall|j: int| 0 <= j < i ==> (#[trigger] v@[j])@ != x@,
        decreases v@.len() - i,
    {
        let e = &v[i];
        if *e == *x {
            proof {
                assert(v.deep_view()[i as int] == x@);
            }
            return true;
        }
        i += 1;
    }
    proof {
        assert forall|j: int| 0 <= j < v.deep_view().len() implies #[trigger] v.deep_view()[j]
            != x@ by {
            assert(v.deep_view()[j] == v@[j]@);
        }
    }
    false
}

/// The mail ledger.
pub struct Mail {
    code: Vec<u8>,
    sent: AcctTable<Vec<String>>,
    received: AcctTable<Vec<String>>,
    contacts: AcctTable<Vec<AccountId>>,
    timestamps: StrTable<u64>,
    algos: StrTable<Vec<u8>>,
    masks: StrTable<String>,
}

impl View for Mail {
    type V = MailModel;

    closed spec fn view(&self) -> MailModel {
        MailModel {
            code: self.code@,
            sent: self.sent.table_map(),
            received: self.received.table_map(),
            contacts: self.contacts.table_map(),
            timestamps: self.timestamps.table_map(),
            algos: self.algos.table_map(),
            masks: self.masks.table_map(),
        }
    }
}

impl Mail {
    /// A fresh ledger: empty tables and the seed rolling state.
    pub fn new() -> (r: Mail)
        ensures
            r@.wf(),
            r@.code == ascii_bytes_of("nonceecnon"@),
            r@.sent == Map::<AccountId, Seq<Seq<char>>>::empty(),
            r@.received == Map::<AccountId, Seq<Seq<char>>>::empty(),
            r@.contacts == Map::<AccountId, Seq<AccountId>>::empty(),
            r@.timestamps == Map::<Seq<char>, u64>::empty(),
            r@.algos == Map::<Seq<char>, Seq<u8>>::empty(),
            r@.masks == Map::<Seq<char>, Seq<char>>::empty(),
    {
        let seed: &str = "nonceecnon";
        proof {
            reveal_strlit("nonceecnon");
            assert(vstd::utf8::is_ascii_chars(seed@));
            assert(seed.is_ascii());
        }
        let code = seed.as_bytes_vec();
        proof {
            assert(code@ =~= ascii_bytes_of(seed@));
            assert forall|i: int| 0 <= i < code@.len() implies #[trigger] code@[i] < 128
                && !is_ws_byte(code@[i]) by {
                assert(code@[i] == seed@[i] as u8);
            }
            assert(code_wf(code@));
        }
        Mail {
            code,
            sent: AcctTable::new(),
            received: AcctTable::new(),
            contacts: AcctTable::new(),
            timestamps: StrTable::new(),
            algos: StrTable::new(),
            masks: StrTable::new(),
        }
    }

    /// The caller's received index, as host-ready values.
    pub fn get_received_mail(&self, caller: AccountId) -> (r: Vec<String>)
        ensures
            r.deep_view() == self@.received_of(caller),
    {
        match self.received.get(caller) {
            None => {
                let r: Vec<String> = Vec::new();
                proof {
                    assert(r.deep_view() =~= self@.received_of(caller));
                }
                r
            },
            Some(v) => {
                let r = clone_string_vec(v);
                proof {
                    assert(r.deep_view() =~= self@.received_of(caller));
                }
                r
            },
        }
    }

    /// The caller's sent index.
    pub fn get_sent_mail(&self, caller: AccountId) -> (r: Vec<String>)
        ensures
            r.deep_view() == self@.sent_of(caller),
    {
        match self.sent.get(caller) {
            None => {
                let r: Vec<String> = Vec::new();
                proof {
                    assert(r.deep_view() =~= self@.sent_of(caller));
                }
                r
            },
            Some(v) => {
                let r = clone_string_vec(v);
                proof {
                    assert(r.deep_view() =~= self@.sent_of(caller));
                }
                r
            },
        }
    }

    /// The caller's contact list.
    pub fn get_contacts(&self, caller: AccountId) -> (r: Vec<AccountId>)
        ensures
            r.deep_view() == self@.contacts_of(caller),
    {
        match self.contacts.get(caller) {
            None => {
                let r: Vec<AccountId> = Vec::new();
                proof {
                    assert(r.deep_view() =~= self@.contacts_of(caller));
                }
                r
            },
            Some(v) => {
                let r = copy_vec(v);
                proof {
                    assert(r.deep_view() =~= self@.contacts_of(caller));
                }
                r
            },
        }
    }

    /// The mask and classifier recorded under `mail_id`, readable only by
    /// the mail's sender or recipient.
    pub fn get_algos_and_mask(&self, caller: AccountId, mail_id: String) -> (r: Result<
        (String, Vec<u8>),
        MailError,
    >)
        ensures
            result_view(r) == read_result(self@, caller, mail_id@),
    {
        let mask_op = self.masks.get(&mail_id);
        let algos_op = self.algos.get(&mail_id);
        if mask_op.is_none() || algos_op.is_none() {
            return Err(MailError::NotFound);
        }
        let mut authorized = false;
        match self.sent.get(caller) {
            Some(sent_list) => {
                if contains_string(sent_list, &mail_id) {
                    proof {
                        assert(self@.sent_of(caller).contains(mail_id@));
                    }
                    authorized = true;
                }
            },
            None => {},
        }
        if !authorized {
            match self.received.get(caller) {
                Some(received_list) => {
                    if contains_string(received_list, &mail_id) {
                        proof {
                            assert(self@.received_of(caller).contains(mail_id@));
                        }
                        authorized = true;
                    }
                },
                None => {},
            }
        }
        if !authorized {
            return Err(MailError::Unauthorized);
        }
        let mask = mask_op.unwrap().clone();
        let algos = copy_vec(algos_op.unwrap());
        proof {
            assert(mask@ == self@.masks[mail_id@]);
            assert(algos@ == self@.algos[mail_id@]);
        }
        Ok((mask, algos))
    }

    /// Appends an account to the caller's contact list, creating the list on
    /// first use. Duplicates are kept; the operation always succeeds.
    pub fn add_contacts(&mut self, caller: AccountId, add: AccountId) -> (r: bool)
        ensures
            r == true,
            final(self)@ == old(self)@.after_add_contact(caller, add),
            old(self)@.wf() ==> final(self)@.wf(),
    {
        let mut list = match self.contacts.get(caller) {
            None => Vec::new(),
            Some(v) => copy_vec(v),
        };
        list.push(add);
        self.contacts.set(caller, list);
        proof {
            assert(list.deep_view() =~= old(self)@.contacts_of(caller).push(add));
            assert(self@ =~~= old(self)@.after_add_contact(caller, add));
            if old(self)@.wf() {
                assert(self@.wf()) by {
                    assert forall|a: AccountId, i: int|
                        0 <= i < self@.sent_of(a).len() implies self@.timestamps.contains_key(
                        #[trigger] self@.sent_of(a)[i],
                    ) by {
                        assert(self@.sent_of(a) == old(self)@.sent_of(a));
                    }
                    assert forall|a: AccountId, i: int|
                        0 <= i < self@.received_of(a).len() implies self@.timestamps.contains_key(
                        #[trigger] self@.received_of(a)[i],
                    ) by {
                        assert(self@.received_of(a) == old(self)@.received_of(a));
                    }
                }
            }
        }
        true
    }

    /// Sends a mail: records the id under the caller's sent index and the
    /// recipient's received index, stores the timestamp, classifier and
    /// mask derived from the phrase, and advances the rolling state. Returns
    /// false, changing nothing, when the id was already used or the phrase
    /// is unusable (shorter than three bytes, or not ASCII).
    pub fn send_mail(
        &mut self,
        caller: AccountId,
        to: AccountId,
        mail_id: String,
        phrase: String,
        now: u64,
    ) -> (r: bool)
        requires
            old(self)@.wf(),
        ensures
            final(self)@.wf(),
            r == (!old(self)@.timestamps.contains_key(mail_id@) && phrase_ok(phrase@)),
            !r ==> final(self)@ == old(self)@,
            r ==> final(self)@ == old(self)@.after_send(caller, to, mail_id@, phrase@, now),
    {
        if self.timestamps.get(&mail_id).is_some() || self.algos.get(&mail_id).is_some()
            || self.masks.get(&mail_id).is_some() {
            return false;
        }
        let ph: &str = phrase.as_str();
        if !ph.is_ascii() {
            return false;
        }
        let p = ph.as_bytes_vec();
        proof {
            vstd::string::is_ascii_spec_bytes(ph);
            assert(p@ =~= ascii_bytes_of(phrase@));
            assert(p@.len() == phrase@.len());
        }
        if p.len() < 3 {
            return false;
        }
        let ghost pb = p@;
        proof {
            assert forall|i: int| 0 <= i < pb.len() implies #[trigger] pb[i] < 128 by {
                assert((phrase@[i] as nat) < 128);
            }
        }
        let plen = p.len();
        let algo1 = p[0] % 3;
        let algo2 = p[plen / 2] % 3;
        let algo3 = p[plen - 1] % 3;
        let n1 = p[1];
        let n2 = p[plen / 2 + 1];
        let n3 = p[plen - 2];
        let mut algos_v: Vec<u8> = Vec::new();
        algos_v.push(algo1);
        algos_v.push(algo2);
        algos_v.push(algo3);
        proof {
            assert(algos_v@ =~= classifier_of(pb));
        }

        let mut sent_list = match self.sent.get(caller) {
            None => Vec::new(),
            Some(v) => clone_string_vec(v),
        };
        sent_list.push(mail_id.clone());
        proof {
            assert(sent_list.deep_view() =~= old(self)@.sent_of(caller).push(mail_id@));
        }
        self.sent.set(caller, sent_list);

        let mut received_list = match self.received.get(to) {
            None => Vec::new(),
            Some(v) => clone_string_vec(v),
        };
        received_list.push(mail_id.clone());
        proof {
            assert(received_list.deep_view() =~= old(self)@.received_of(to).push(mail_id@));
        }
        self.received.set(to, received_list);

        self.timestamps.set(mail_id.clone(), now);
        self.algos.set(mail_id.clone(), algos_v);

        let ts = u64_to_dec(now);
        proof {
            lemma_dec_str_props(now);
        }
        let split1 = (n1 as usize) % ts.len();
        let split2 = (n2 as usize) % plen;
        let split3 = (n3 as usize) % self.code.len();
        let mut mask: Vec<u8> = Vec::new();
        append_range(&mut mask, &ts, 0, split1);
        append_range(&mut mask, &p, 0, split2);
        append_range(&mut mask, &self.code, 0, split3);
        append_range(&mut mask, &ts, split1, ts.len());
        append_range(&mut mask, &self.code, split3, self.code.len());
        append_range(&mut mask, &p, split2, plen);
        proof {
            assert(mask@ =~= mask_of(now, pb, old(self)@.code));
            assert(forall|i: int| 0 <= i < mask@.len() ==> #[trigger] mask@[i] < 128);
        }
        let mask_str = string_from_ascii(mask);
        self.masks.set(mail_id, mask_str);

        let half = self.code.len() / 2;
        let clen = self.code.len();
        let mut raw: Vec<u8> = Vec::new();
        append_range(&mut raw, &self.code, half, clen);
        append_range(&mut raw, &p, split2, plen);
        let ghost keep: int = clen - half;
        let stripped = strip_ws_vec(&raw, Ghost(keep));
        let mut new_code = stripped;
        if new_code.len() > CODE_CAP {
            new_code.truncate(CODE_CAP);
        }
        proof {
            assert(new_code@ == next_code_of(pb, old(self)@.code));
        }
        self.code = new_code;
        proof {
            let m2 = old(self)@.after_send(caller, to, mail_id@, phrase@, now);
            assert(self@ =~~= m2);
            assert(self@.wf()) by {
                assert(self@.algos.dom() =~= self@.timestamps.dom());
                assert(self@.masks.dom() =~= self@.timestamps.dom());
                assert forall|a: AccountId, i: int|
                    0 <= i < self@.sent_of(a).len() implies self@.timestamps.contains_key(
                    #[trigger] self@.sent_of(a)[i],
                ) by {
                    if a == caller {
                        if i < self@.sent_of(a).len() - 1 {
                            assert(self@.sent_of(a)[i] == old(self)@.sent_of(a)[i]);
                        }
                    } else {
                        assert(self@.sent_of(a) == old(self)@.sent_of(a));
                    }
                }
                assert forall|a: AccountId, i: int|
                    0 <= i < self@.received_of(a).len() implies self@.timestamps.contains_key(
                    #[trigger] self@.received_of(a)[i],
                ) by {
                    if a == to {
                        if i < self@.received_of(a).len() - 1 {
                            assert(self@.received_of(a)[i] == old(self)@.received_of(a)[i]);
                        }
                    } else {
                        assert(self@.received_of(a) == old(self)@.received_of(a));
                    }
                }
            }
        }
        true
    }

    /// Decides a tip of `amt` to `ctct`, given the value the host reports as
    /// attached to the call and the contract's current balance. On success
    /// the host must carry out the returned transfer order.
    pub fn tip_contact(&self, ctct: AccountId, amt: u128, attached: u128, balance: u128) -> (r:
        Result<TipOrder, TipError>)
        ensures
            r == tip_decision(ctct, amt, attached, balance),
    {
        if attached != amt {
            return Err(TipError::ValueMismatch);
        }
        if amt > balance {
            return Err(TipError::InsufficientFunds);
        }
        Ok(TipOrder { to: ctct, amount: amt })
    }
}

/// The terminal decision once the host reports the transfer's outcome: a tip
/// whose transfer failed aborts as a whole.
pub fn settle_tip_transfer(transfer_succeeded: bool) -> (r: Result<bool, TipError>)
    ensures
        transfer_succeeded ==> r == Ok::<bool, TipError>(true),
        !transfer_succeeded ==> r == Err::<bool, TipError>(TipError::TransferFailed),
{
    if transfer_succeeded {
        Ok(true)
    } else {
        Err(TipError::TransferFailed)
    }
}

} // verus!
