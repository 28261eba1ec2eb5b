//! An organization's bookkeeping and its validation against the ledger.
use vstd::prelude::*;
use crate::field::{FieldElement, values_of, contains_element};
use crate::text::{decimal_of, decimal_string, lemma_decimal_of_injective};

verus! {

/// The texts of a list of strings.
pub open spec fn texts_of(v: Seq<String>) -> Seq<Seq<char>> {
    v.map_values(|s: String| s@)
}

/// Whether every commitment that is claimed appears in the ledger's set.
pub open spec fn covered(claimed: Seq<Seq<u64>>, ledger: Seq<Seq<u64>>) -> bool {
    forall|i: int| 0 <= i < claimed.len() ==> ledger.contains(#[trigger] claimed[i])
}

/// Whether a transaction between `sender` and `receiver` touches one of `keys`.
pub open spec fn involves(keys: Seq<Seq<char>>, sender: Seq<char>, receiver: Seq<char>) -> bool {
    keys.contains(sender) || keys.contains(receiver)
}

/// Whether `v` holds an `i32`.
pub open spec fn fits_i32(v: int) -> bool {
    i32::MIN <= v <= i32::MAX
}

/// A transfer between two public identities.
pub struct Transaction {
    sender: String,
    receiver: String,
}

/// The two parties of a transaction.
pub struct TransactionView {
    pub sender: Seq<char>,
    pub receiver: Seq<char>,
}

impl View for Transaction {
    type V = TransactionView;

    closed spec fn view(&self) -> TransactionView {
        TransactionView { sender: self.sender@, receiver: self.receiver@ }
    }
}

impl Transaction {
    pub fn new(sender: String, receiver: String) -> (r: Transaction)
        ensures
            r@.sender == sender@,
            r@.receiver == receiver@,
    {
        Transaction { sender, receiver }
    }

    pub fn sender_identity(&self) -> (r: &String)
        ensures
            r@ == self@.sender,
    {
        &self.sender
    }

    pub fn receiver_identity(&self) -> (r: &String)
        ensures
            r@ == self@.receiver,
    {
        &self.receiver
    }
}

/// Why a change to an organization was refused.
#[derive(Debug, PartialEq, Eq, Structural)]
pub enum OrganizationError {
    /// The public identity or serial number is already held.
    DuplicateCommitment,
}

/// Whether every element of `claimed` appears in `ledger`.
fn all_in_ledger(claimed: &Vec<FieldElement>, ledger: &Vec<FieldElement>) -> (r: bool)
    ensures
        r == covered(values_of(claimed@), values_of(ledger@)),
{
    let mut i: usize = 0;
    while i < claimed.len()
        invariant
            i <= claimed@.len(),
            forall|j: int| 0 <= j < i ==> values_of(ledger@).contains(#[trigger] values_of(claimed@)[j]),
        decreases claimed@.len() - i,
    {
        if !contains_element(ledger, &claimed[i]) {
            assert(!values_of(ledger@).contains(values_of(claimed@)[i as int]));
            return false;
        }
        i = i + 1;
    }
    true
}

/// An account of the ledger: its balances, its public identities, and the
/// commitments it has claimed since its caches were last validated.
pub struct Organization {
    spent_serial_numbers: Vec<FieldElement>,
    used_address_public_keys: Vec<String>,
    transaction_root_cache: Vec<FieldElement>,
    unique_identifier: String,
    initial_balance: i32,
    final_balance: i32,
    epoch_balance_delta: i32,
}

/// The state of an organization as mathematical values.
pub struct OrganizationView {
    pub identifier: Seq<char>,
    pub initial_balance: int,
    pub final_balance: int,
    pub epoch_delta: int,
    pub known_keys: Seq<Seq<char>>,
    pub serial_numbers: Seq<Seq<u64>>,
    pub roots: Seq<Seq<u64>>,
}

impl OrganizationView {
    /// The state after `value` is added to the pending change.
    pub open spec fn with_delta(self, value: int) -> OrganizationView {
        OrganizationView { epoch_delta: self.epoch_delta + value, ..self }
    }

    /// The state after each of `values` in turn is added to the pending change.
    pub open spec fn with_deltas(self, values: Seq<int>) -> OrganizationView
        decreases values.len(),
    {
        if values.len() == 0 {
            self
        } else {
            self.with_deltas(values.drop_last()).with_delta(values.last())
        }
    }

    /// The state after `delta` is added to the running balance.
    pub open spec fn with_balance_change(self, delta: int) -> OrganizationView {
        OrganizationView { final_balance: self.final_balance + delta, ..self }
    }

    /// The state after the pending change is reset.
    pub open spec fn cleared(self) -> OrganizationView {
        OrganizationView { epoch_delta: 0, ..self }
    }

    /// The state after an epoch closes with change `delta`.
    pub open spec fn closed(self, delta: int) -> OrganizationView {
        self.with_balance_change(delta).cleared()
    }

    /// The state after a run of epochs, each of which adds its changes to the
    /// pending change one by one, then adds their sum to the running balance,
    /// then resets the pending change.
    pub open spec fn with_epochs(self, epochs: Seq<Seq<int>>) -> OrganizationView
        decreases epochs.len(),
    {
        if epochs.len() == 0 {
            self
        } else {
            let last = epochs.last();
            self.with_epochs(epochs.drop_last()).with_deltas(last).with_balance_change(total(last)).cleared()
        }
    }
}

/// The sum of a sequence of changes.
pub open spec fn total(values: Seq<int>) -> int
    decreases values.len(),
{
    if values.len() == 0 {
        0
    } else {
        total(values.drop_last()) + values.last()
    }
}

/// Changes accumulated over an epoch only add up in the pending change, and
/// closing the epoch with a change `delta` then moves the running balance by
/// exactly `delta` and leaves nothing pending, whatever the changes were.
pub proof fn lemma_epoch_close(v: OrganizationView, values: Seq<int>, delta: int)
    ensures
        v.with_deltas(values).epoch_delta == v.epoch_delta + total(values),
        v.with_deltas(values).final_balance == v.final_balance,
        v.with_deltas(values).closed(delta).final_balance == v.final_balance + delta,
        v.with_deltas(values).closed(delta).epoch_delta == 0,
    decreases values.len(),
{
    if values.len() > 0 {
        lemma_epoch_close(v, values.drop_last(), delta);
    }
}

/// The sum of the changes of a run of epochs.
pub open spec fn total_of_epochs(epochs: Seq<Seq<int>>) -> int
    decreases epochs.len(),
{
    if epochs.len() == 0 {
        0
    } else {
        total_of_epochs(epochs.drop_last()) + total(epochs.last())
    }
}

/// Over any run of epochs that each close with the sum of their own changes,
/// the running balance moves by exactly the sum of all changes, nothing is
/// left pending after the last epoch, and the starting balance is untouched:
/// no change is counted twice.
pub proof fn lemma_epochs_close(v: OrganizationView, epochs: Seq<Seq<int>>)
    requires
        v.epoch_delta == 0,
    ensures
        v.with_epochs(epochs).final_balance == v.final_balance + total_of_epochs(epochs),
        v.with_epochs(epochs).epoch_delta == 0,
        v.with_epochs(epochs).initial_balance == v.initial_balance,
    decreases epochs.len(),
{
    if epochs.len() > 0 {
        let before = v.with_epochs(epochs.drop_last());
        lemma_epochs_close(v, epochs.drop_last());
        lemma_epoch_close(before, epochs.last(), total(epochs.last()));
        lemma_deltas_keep_balances(before, epochs.last());
    }
}

/// Adding changes to the pending change leaves both balances as they were.
proof fn lemma_deltas_keep_balances(v: OrganizationView, values: Seq<int>)
    ensures
        v.with_deltas(values).initial_balance == v.initial_balance,
        v.with_deltas(values).final_balance == v.final_balance,
    decreases values.len(),
{
    if values.len() > 0 {
        lemma_deltas_keep_balances(v, values.drop_last());
    }
}

/// Validation of claimed commitments succeeds exactly when all of them are in
/// the ledger, and taking out of the ledger every copy of one claimed
/// commitment makes it fail.
pub proof fn lemma_validation_needs_each(claimed: Seq<Seq<u64>>, ledger: Seq<Seq<u64>>, x: Seq<u64>)
    requires
        claimed.contains(x),
    ensures
        covered(claimed, ledger) <==> claimed.to_set().subset_of(ledger.to_set()),
        !covered(claimed, ledger.filter(|y: Seq<u64>| y != x)),
{
    broadcast use vstd::seq_lib::group_filter_ensures;

    let i = choose|i: int| 0 <= i < claimed.len() && claimed[i] == x;
    let rest = ledger.filter(|y: Seq<u64>| y != x);
    if rest.contains(x) {
        let k = choose|k: int| 0 <= k < rest.len() && rest[k] == x;
        assert(rest[k] != x);
    }
    assert(!rest.contains(claimed[i]));
    if covered(claimed, ledger) {
        assert forall|a: Seq<u64>| claimed.to_set().contains(a) implies ledger.to_set().contains(a) by {
            let j = choose|j: int| 0 <= j < claimed.len() && claimed[j] == a;
            assert(ledger.contains(claimed[j]));
        }
    }
    if claimed.to_set().subset_of(ledger.to_set()) {
        assert forall|j: int| 0 <= j < claimed.len() implies ledger.contains(#[trigger] claimed[j]) by {
            assert(claimed.to_set().contains(claimed[j]));
        }
    }
}

/// Whether an organization is involved in a transaction depends only on the
/// set of its identities, not on the order in which they were registered.
pub proof fn lemma_involvement_ignores_order(
    keys1: Seq<Seq<char>>,
    keys2: Seq<Seq<char>>,
    sender: Seq<char>,
    receiver: Seq<char>,
)
    requires
        keys1.to_set() == keys2.to_set(),
    ensures
        involves(keys1, sender, receiver) == involves(keys2, sender, receiver),
        involves(keys1, sender, receiver) == (keys1.to_set().contains(sender) || keys1.to_set().contains(
            receiver,
        )),
{
    assert(keys1.to_set().contains(sender) == keys1.contains(sender));
    assert(keys2.to_set().contains(sender) == keys2.contains(sender));
    assert(keys1.to_set().contains(receiver) == keys1.contains(receiver));
    assert(keys2.to_set().contains(receiver) == keys2.contains(receiver));
}

impl View for Organization {
    type V = OrganizationView;

    closed spec fn view(&self) -> OrganizationView {
        OrganizationView {
            identifier: self.unique_identifier@,
            initial_balance: self.initial_balance as int,
            final_balance: self.final_balance as int,
            epoch_delta: self.epoch_balance_delta as int,
            known_keys: texts_of(self.used_address_public_keys@),
            serial_numbers: values_of(self.spent_serial_numbers@),
            roots: values_of(self.transaction_root_cache@),
        }
    }
}

impl Organization {
    /// No public identity and no serial number is held twice.
    pub open spec fn wf(&self) -> bool {
        &&& self@.known_keys.no_duplicates()
        &&& self@.serial_numbers.no_duplicates()
    }

    /// Creates an organization with a starting balance and its public
    /// identities; refuses a list that names one identity twice.
    pub fn new(unique_identifier: String, initial_balance: i32, known_addresses: Vec<String>) -> (r: Result<
        Organization,
        OrganizationError,
    >)
        ensures
            r is Ok <==> texts_of(known_addresses@).no_duplicates(),
            r is Err ==> r == Err::<Organization, OrganizationError>(OrganizationError::DuplicateCommitment),
            r matches Ok(o) ==> {
                &&& o.wf()
                &&& o@.identifier == unique_identifier@
                &&& o@.initial_balance == initial_balance
                &&& o@.final_balance == initial_balance
                &&& o@.epoch_delta == 0
                &&& o@.known_keys == texts_of(known_addresses@)
                &&& o@.serial_numbers == Seq::<Seq<u64>>::empty()
                &&& o@.roots == Seq::<Seq<u64>>::empty()
            },
    {
        let ghost keys = texts_of(known_addresses@);
        let mut o = Organization {
            spent_serial_numbers: Vec::new(),
            used_address_public_keys: Vec::new(),
            transaction_root_cache: Vec::new(),
            unique_identifier,
            initial_balance,
            final_balance: initial_balance,
            epoch_balance_delta: 0,
        };
        assert(o@.known_keys =~= keys.subrange(0, 0));
        assert(o@.serial_numbers =~= Seq::<Seq<u64>>::empty());
        assert(o@.roots =~= Seq::<Seq<u64>>::empty());
        let mut i: usize = 0;
        while i < known_addresses.len()
            invariant
                keys == texts_of(known_addresses@),
                i <= known_addresses@.len(),
                o.wf(),
                o@.known_keys == keys.subrange(0, i as int),
                o@.identifier == unique_identifier@,
                o@.initial_balance == initial_balance,
                o@.final_balance == initial_balance,
                o@.epoch_delta == 0,
                o@.serial_numbers == Seq::<Seq<u64>>::empty(),
                o@.roots == Seq::<Seq<u64>>::empty(),
            decreases known_addresses@.len() - i,
        {
            let key = known_addresses[i].clone();
            match o.add_address_public_key(key) {
                Ok(()) => {},
                Err(e) => {
                    assert(!keys.no_duplicates()) by {
                        let j = choose|j: int| 0 <= j < i && keys.subrange(0, i as int)[j] == keys[i as int];
                        assert(keys[j] == keys[i as int]);
                    }
                    return Err(e);
                },
            }
            assert(keys.subrange(0, i as int + 1) =~= keys.subrange(0, i as int).push(keys[i as int]));
            i = i + 1;
        }
        assert(keys.subrange(0, i as int) =~= keys);
        Ok(o)
    }

    /// Adds a public identity; refuses one that is already held.
    pub fn add_address_public_key(&mut self, address_public_key: String) -> (r: Result<(), OrganizationError>)
        requires
            old(self).wf(),
        ensures
            final(self).wf(),
            r is Ok <==> !old(self)@.known_keys.contains(address_public_key@),
            r is Err ==> r == Err::<(), OrganizationError>(OrganizationError::DuplicateCommitment)
                && final(self)@ == old(self)@,
            r is Ok ==> final(self)@ == (OrganizationView {
                known_keys: old(self)@.known_keys.push(address_public_key@),
                ..old(self)@
            }),
    {
        if self.has_address(address_public_key.clone()) {
            return Err(OrganizationError::DuplicateCommitment);
        }
        let ghost keys = self@.known_keys;
        self.used_address_public_keys.push(address_public_key);
        assert(self@.known_keys =~= keys.push(address_public_key@));
        assert(self@.serial_numbers =~= old(self)@.serial_numbers);
        assert(self@.roots =~= old(self)@.roots);
        assert(self@.known_keys.no_duplicates()) by {
            assert forall|a: int, b: int| 0 <= a < b < self@.known_keys.len()
                implies self@.known_keys[a] != self@.known_keys[b] by {
                if b == keys.len() {
                    assert(keys[a] == self@.known_keys[a]);
                }
            }
        }
        Ok(())
    }

    /// Records the serial number of a spend; refuses one already recorded,
    /// which would be a double spend.
    pub fn add_serial_number(&mut self, sn: FieldElement) -> (r: Result<(), OrganizationError>)
        requires
            old(self).wf(),
        ensures
            final(self).wf(),
            r is Ok <==> !old(self)@.serial_numbers.contains(sn@),
            r is Err ==> r == Err::<(), OrganizationError>(OrganizationError::DuplicateCommitment)
                && final(self)@ == old(self)@,
            r is Ok ==> final(self)@ == (OrganizationView {
                serial_numbers: old(self)@.serial_numbers.push(sn@),
                ..old(self)@
            }),
    {
        if contains_element(&self.spent_serial_numbers, &sn) {
            return Err(OrganizationError::DuplicateCommitment);
        }
        let ghost sns = self@.serial_numbers;
        self.spent_serial_numbers.push(sn);
        assert(self@.serial_numbers =~= sns.push(sn@));
        assert(self@.known_keys =~= old(self)@.known_keys);
        assert(self@.roots =~= old(self)@.roots);
        assert(self@.serial_numbers.no_duplicates()) by {
            assert forall|a: int, b: int| 0 <= a < b < self@.serial_numbers.len()
                implies self@.serial_numbers[a] != self@.serial_numbers[b] by {
                if b == sns.len() {
                    assert(sns[a] == self@.serial_numbers[a]);
                }
            }
        }
        Ok(())
    }

    /// Records a transaction root that this organization has referenced.
    pub fn add_root(&mut self, root: FieldElement)
        requires
            old(self).wf(),
        ensures
            final(self).wf(),
            final(self)@ == (OrganizationView { roots: old(self)@.roots.push(root@), ..old(self)@ }),
    {
        let ghost roots = self@.roots;
        self.transaction_root_cache.push(root);
        assert(self@.roots =~= roots.push(root@));
        assert(self@.known_keys =~= old(self)@.known_keys);
        assert(self@.serial_numbers =~= old(self)@.serial_numbers);
    }

    /// Whether `address_public_key` is one of this organization's identities.
    pub fn has_address(&self, address_public_key: String) -> (r: bool)
        ensures
            r == self@.known_keys.contains(address_public_key@),
    {
        let keys = &self.used_address_public_keys;
        let mut i: usize = 0;
        while i < keys.len()
            invariant
                i <= keys@.len(),
                keys == &self.used_address_public_keys,
                forall|j: int| 0 <= j < i ==> keys@[j]@ != address_public_key@,
            decreases keys@.len() - i,
        {
            if keys[i] == address_public_key {
                assert(self@.known_keys[i as int] == address_public_key@);
                return true;
            }
            i = i + 1;
        }
        assert(!self@.known_keys.contains(address_public_key@)) by {
            if self@.known_keys.contains(address_public_key@) {
                let j = choose|j: int| 0 <= j < self@.known_keys.len() && self@.known_keys[j] == address_public_key@;
                assert(keys@[j]@ == address_public_key@);
            }
        }
        false
    }
    /// Whether either party of `t` is one of this organization's identities;
    /// the order in which identities were registered plays no part.
    pub fn is_involved(&self, t: &Transaction) -> (r: bool)
        ensures
            r == involves(self@.known_keys, t@.sender, t@.receiver),
    {
        self.has_address(t.sender_identity().clone()) || self.has_address(
            t.receiver_identity().clone(),
        )
    }

    /// Whether every serial number this organization has claimed is among
    /// those the ledger records as spent.
    pub fn validate_transaction_serial_numbers(&self, blockchain_serial_numbers: Vec<FieldElement>) -> (r: bool)
        ensures
            r == covered(self@.serial_numbers, values_of(blockchain_serial_numbers@)),
    {
        all_in_ledger(&self.spent_serial_numbers, &blockchain_serial_numbers)
    }

    /// Whether every transaction root this organization has referenced is
    /// among those the ledger records.
    pub fn validate_transaction_roots(&self, blockchain_transaction_roots: Vec<FieldElement>) -> (r: bool)
        ensures
            r == covered(self@.roots, values_of(blockchain_transaction_roots@)),
    {
        all_in_ledger(&self.transaction_root_cache, &blockchain_transaction_roots)
    }

    /// Adds `value` to the change pending in the current epoch.
    pub fn update_delta(&mut self, value: i32)
        requires
            fits_i32(old(self)@.epoch_delta + value),
        ensures
            final(self)@ == old(self)@.with_delta(value as int),
    {
        self.epoch_balance_delta = self.epoch_balance_delta + value;
    }

    /// Adds the change of a closed epoch to the running balance.
    pub fn update_balance(&mut self, epoch_delta: i32)
        requires
            fits_i32(old(self)@.final_balance + epoch_delta),
        ensures
            final(self)@ == old(self)@.with_balance_change(epoch_delta as int),
    {
        self.final_balance = self.final_balance + epoch_delta;
    }

    /// Resets the change pending in the current epoch.
    pub fn clear_delta(&mut self)
        ensures
            final(self)@ == old(self)@.cleared(),
    {
        self.epoch_balance_delta = 0;
    }

    /// Closes the epoch: adds `delta` to the running balance, then resets the
    /// pending change.
    pub fn close_epoch(&mut self, delta: i32)
        requires
            fits_i32(old(self)@.final_balance + delta),
        ensures
            final(self)@ == old(self)@.closed(delta as int),
    {
        self.update_balance(delta);
        self.clear_delta();
    }

    pub fn delta(&self) -> (r: i32)
        ensures
            r == self@.epoch_delta,
    {
        self.epoch_balance_delta
    }

    pub fn final_balance(&self) -> (r: i32)
        ensures
            r == self@.final_balance,
    {
        self.final_balance
    }

    pub fn initial_balance(&self) -> (r: i32)
        ensures
            r == self@.initial_balance,
    {
        self.initial_balance
    }

    pub fn identifier(&self) -> (r: String)
        ensures
            r@ == self@.identifier,
    {
        self.unique_identifier.clone()
    }

    /// The public identities, in the order of registration.
    pub fn known_public_keys(&self) -> (r: &Vec<String>)
        ensures
            texts_of(r@) == self@.known_keys,
    {
        &self.used_address_public_keys
    }

    /// The serial numbers claimed, in the order of recording.
    pub fn serial_numbers(&self) -> (r: &Vec<FieldElement>)
        ensures
            values_of(r@) == self@.serial_numbers,
    {
        &self.spent_serial_numbers
    }

    /// The transaction roots referenced, in the order of recording.
    pub fn roots(&self) -> (r: &Vec<FieldElement>)
        ensures
            values_of(r@) == self@.roots,
    {
        &self.transaction_root_cache
    }

    /// Placeholder identities for bootstrapping: the decimal texts of
    /// `offset`, `offset + 1`, ..., `offset + num_addresses - 1`. They are
    /// not derived from secrets.
    pub fn create_known_addresses(num_addresses: usize, offset: usize) -> (r: Vec<String>)
        requires
            num_addresses == 0 || offset <= usize::MAX - (num_addresses - 1),
        ensures
            r@.len() == num_addresses,
            forall|i: int| 0 <= i < num_addresses ==> #[trigger] r@[i]@ == decimal_of((i + offset) as nat),
            texts_of(r@).no_duplicates(),
    {
        let mut addresses: Vec<String> = Vec::new();
        let mut i: usize = 0;
        while i < num_addresses
            invariant
                i <= num_addresses,
                num_addresses == 0 || offset <= usize::MAX - (num_addresses - 1),
                addresses@.len() == i,
                forall|j: int| 0 <= j < i ==> #[trigger] addresses@[j]@ == decimal_of((j + offset) as nat),
            decreases num_addresses - i,
        {
            addresses.push(decimal_string(i + offset));
            i = i + 1;
        }
        assert(texts_of(addresses@).no_duplicates()) by {
            assert forall|a: int, b: int| 0 <= a < b < texts_of(addresses@).len()
                implies texts_of(addresses@)[a] != texts_of(addresses@)[b] by {
                if texts_of(addresses@)[a] == texts_of(addresses@)[b] {
                    assert(addresses@[a]@ == decimal_of((a + offset) as nat));
                    assert(addresses@[b]@ == decimal_of((b + offset) as nat));
                    lemma_decimal_of_injective((a + offset) as nat, (b + offset) as nat);
                }
            }
        }
        addresses
    }
}


} // verus!
