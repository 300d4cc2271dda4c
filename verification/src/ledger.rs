//! A model of the storage substrate that holds attendance slots.
//!
//! The substrate is a flat map from 32-byte addresses to accounts; each
//! account carries a balance, the identity of the program that owns it,
//! and its stored bytes. The substrate's one structural guarantee is the
//! guarantee the whole subsystem leans on: a slot at a given address can
//! be brought from empty to allocated only once — a second allocation at
//! the same address fails instead of overwriting.
//!
//! Authorization (signatures, derivation proofs) is enforced by the
//! substrate's runtime and is out of scope here; the operations below
//! model its state transitions exactly.

use vstd::prelude::*;
use vstd::slice::slice_to_vec;

use crate::codec::IDENTITY_LEN;
use crate::errors::ErrorCode;

verus! {

/// One account of the substrate: a balance, the owning program, and the
/// stored bytes.
pub struct SlotAccount {
    pub lamports: u64,
    pub owner_program: Vec<u8>,
    pub data: Vec<u8>,
}

/// Mathematical image of an account.
pub ghost struct AccountView {
    pub lamports: u64,
    pub owner_program: Seq<u8>,
    pub data: Seq<u8>,
}

impl View for SlotAccount {
    type V = AccountView;

    open spec fn view(&self) -> AccountView {
        AccountView {
            lamports: self.lamports,
            owner_program: self.owner_program@,
            data: self.data@,
        }
    }
}

/// The owner marking an account as plain, unclaimed storage: 32 zero
/// bytes, the substrate's own identity.
pub open spec fn system_owner() -> Seq<u8> {
    Seq::new(IDENTITY_LEN as nat, |i: int| 0u8)
}

/// `n` zero bytes, the content of a freshly allocated region.
pub open spec fn zeros(n: nat) -> Seq<u8> {
    Seq::new(n, |i: int| 0u8)
}

/// Balance at an address; an absent account holds nothing.
pub open spec fn spec_balance(m: Map<Seq<u8>, AccountView>, a: Seq<u8>) -> u64 {
    if m.contains_key(a) {
        m[a].lamports
    } else {
        0
    }
}

/// Number of stored bytes at an address; an absent account stores none.
pub open spec fn spec_stored_len(m: Map<Seq<u8>, AccountView>, a: Seq<u8>) -> nat {
    if m.contains_key(a) {
        m[a].data.len()
    } else {
        0
    }
}

/// A transfer can complete when the payer can cover it and the credited
/// balance still fits the balance type.
pub open spec fn can_transfer(
    m: Map<Seq<u8>, AccountView>,
    from: Seq<u8>,
    to: Seq<u8>,
    amount: u64,
) -> bool {
    &&& spec_balance(m, from) >= amount
    &&& (from == to || spec_balance(m, to) + amount <= u64::MAX)
}

/// Debit an address. An absent payer can only be debited by nothing, and
/// the map is then unchanged.
pub open spec fn spec_debit(m: Map<Seq<u8>, AccountView>, a: Seq<u8>, amount: u64) -> Map<
    Seq<u8>,
    AccountView,
> {
    if m.contains_key(a) {
        m.insert(a, AccountView { lamports: (m[a].lamports - amount) as u64, ..m[a] })
    } else {
        m
    }
}

/// Credit an address, bringing a fresh system-owned, empty account into
/// existence if none was there.
pub open spec fn spec_credit(m: Map<Seq<u8>, AccountView>, a: Seq<u8>, amount: u64) -> Map<
    Seq<u8>,
    AccountView,
> {
    if m.contains_key(a) {
        m.insert(a, AccountView { lamports: (m[a].lamports + amount) as u64, ..m[a] })
    } else {
        m.insert(a, AccountView { lamports: amount, owner_program: system_owner(), data: Seq::empty() })
    }
}

/// Effect of a completed transfer.
pub open spec fn spec_transfer(
    m: Map<Seq<u8>, AccountView>,
    from: Seq<u8>,
    to: Seq<u8>,
    amount: u64,
) -> Map<Seq<u8>, AccountView> {
    if from == to {
        m
    } else {
        spec_credit(spec_debit(m, from, amount), to, amount)
    }
}

/// Effect of a completed allocation: the slot holds `n` zero bytes, and
/// exists afterwards even if nothing had funded it.
pub open spec fn spec_allocate(m: Map<Seq<u8>, AccountView>, a: Seq<u8>, n: nat) -> Map<
    Seq<u8>,
    AccountView,
> {
    if m.contains_key(a) {
        m.insert(a, AccountView { data: zeros(n), ..m[a] })
    } else {
        m.insert(a, AccountView { lamports: 0, owner_program: system_owner(), data: zeros(n) })
    }
}

/// Effect of binding an address to a new owning program.
pub open spec fn spec_assign(m: Map<Seq<u8>, AccountView>, a: Seq<u8>, o: Seq<u8>) -> Map<
    Seq<u8>,
    AccountView,
> {
    if m.contains_key(a) {
        m.insert(a, AccountView { owner_program: o, ..m[a] })
    } else {
        m.insert(a, AccountView { lamports: 0, owner_program: o, data: Seq::empty() })
    }
}

/// No two entries of the sequence name the same address.
pub open spec fn distinct_keys(s: Seq<(Seq<u8>, AccountView)>) -> bool {
    forall|i: int, j: int| 0 <= i < j < s.len() ==> s[i].0 != s[j].0
}

/// The map that a sequence of keyed entries denotes.
pub open spec fn as_map(s: Seq<(Seq<u8>, AccountView)>) -> Map<Seq<u8>, AccountView>
    decreases s.len(),
{
    if s.len() == 0 {
        Map::empty()
    } else {
        as_map(s.drop_last()).insert(s.last().0, s.last().1)
    }
}

proof fn lemma_as_map_contains(s: Seq<(Seq<u8>, AccountView)>, k: Seq<u8>)
    ensures
        as_map(s).contains_key(k) <==> (exists|i: int| 0 <= i < s.len() && s[i].0 == k),
    decreases s.len(),
{
    if s.len() > 0 {
        lemma_as_map_contains(s.drop_last(), k);
        if s.last().0 == k {
            assert(s[s.len() - 1].0 == k);
        } else {
            if exists|i: int| 0 <= i < s.len() && s[i].0 == k {
                let i = choose|i: int| 0 <= i < s.len() && s[i].0 == k;
                assert(s.drop_last()[i].0 == k);
            }
        }
    }
}

proof fn lemma_as_map_index(s: Seq<(Seq<u8>, AccountView)>, i: int)
    requires
        distinct_keys(s),
        0 <= i < s.len(),
    ensures
        as_map(s).contains_key(s[i].0),
        as_map(s)[s[i].0] == s[i].1,
    decreases s.len(),
{
    if i < s.len() - 1 {
        assert(distinct_keys(s.drop_last()));
        lemma_as_map_index(s.drop_last(), i);
        assert(s.drop_last()[i] == s[i]);
        assert(s.last().0 != s[i].0);
    }
}

proof fn lemma_as_map_finite(s: Seq<(Seq<u8>, AccountView)>)
    ensures
        as_map(s).dom().finite(),
    decreases s.len(),
{
    if s.len() > 0 {
        lemma_as_map_finite(s.drop_last());
    }
}

proof fn lemma_as_map_update(s: Seq<(Seq<u8>, AccountView)>, i: int, v: AccountView)
    requires
        distinct_keys(s),
        0 <= i < s.len(),
    ensures
        as_map(s.update(i, (s[i].0, v))) == as_map(s).insert(s[i].0, v),
    decreases s.len(),
{
    let t = s.update(i, (s[i].0, v));
    if i == s.len() - 1 {
        assert(t.drop_last() =~= s.drop_last());
        assert(as_map(s).insert(s[i].0, v) =~= as_map(s.drop_last()).insert(s[i].0, v));
        assert(t.last() == (s[i].0, v));
    } else {
        assert(distinct_keys(s.drop_last()));
        lemma_as_map_update(s.drop_last(), i, v);
        assert(t.drop_last() =~= s.drop_last().update(i, (s[i].0, v)));
        assert(t.last() == s.last());
        assert(s.last().0 != s[i].0);
        assert(as_map(t) == as_map(s.drop_last()).insert(s[i].0, v).insert(s.last().0, s.last().1));
        assert(as_map(s.drop_last()).insert(s[i].0, v).insert(s.last().0, s.last().1) =~= as_map(
            s,
        ).insert(s[i].0, v));
    }
}

proof fn lemma_as_map_push(s: Seq<(Seq<u8>, AccountView)>, k: Seq<u8>, v: AccountView)
    ensures
        as_map(s.push((k, v))) == as_map(s).insert(k, v),
{
    assert(s.push((k, v)).drop_last() =~= s);
    assert(s.push((k, v)).last() == (k, v));
}

/// Byte-for-byte equality of two byte vectors.
pub fn bytes_eq(a: &Vec<u8>, b: &Vec<u8>) -> (r: bool)
    ensures
        r == (a@ == b@),
{
    if a.len() != b.len() {
        return false;
    }
    let mut i: usize = 0;
    while i < a.len()
        invariant
            i <= a@.len(),
            a@.len() == b@.len(),
            forall|j: int| 0 <= j < i ==> a@[j] == b@[j],
        decreases a@.len() - i,
    {
        if a[i] != b[i] {
            return false;
        }
        i += 1;
    }
    proof {
        assert(a@ =~= b@);
    }
    true
}

/// A vector of `n` zero bytes.
pub fn zero_vec(n: usize) -> (r: Vec<u8>)
    ensures
        r@ == zeros(n as nat),
{
    let mut out: Vec<u8> = Vec::new();
    let mut i: usize = 0;
    while i < n
        invariant
            i <= n,
            out@ =~= zeros(i as nat),
        decreases n - i,
    {
        out.push(0);
        i += 1;
        proof {
            assert(out@ =~= zeros(i as nat));
        }
    }
    proof {
        assert(out@ =~= zeros(n as nat));
    }
    out
}

/// The storage substrate: a map from addresses to accounts.
pub struct Ledger {
    entries: Vec<(Vec<u8>, SlotAccount)>,
}

impl View for Ledger {
    type V = Map<Seq<u8>, AccountView>;

    closed spec fn view(&self) -> Map<Seq<u8>, AccountView> {
        as_map(self.entry_views())
    }
}

impl Ledger {
    /// The entries as their mathematical images, in storage order.
    pub closed spec fn entry_views(self) -> Seq<(Seq<u8>, AccountView)> {
        self.entries@.map_values(|e: (Vec<u8>, SlotAccount)| (e.0@, e.1@))
    }

    /// Well-formed: no address appears twice, and addresses and owning
    /// programs have the fixed identity length.
    pub closed spec fn wf(self) -> bool {
        &&& distinct_keys(self.entry_views())
        &&& forall|i: int|
            0 <= i < self.entry_views().len() ==> (#[trigger] self.entry_views()[i]).0.len()
                == IDENTITY_LEN && self.entry_views()[i].1.owner_program.len() == IDENTITY_LEN
    }

    /// An empty substrate.
    pub fn new() -> (r: Ledger)
        ensures
            r.wf(),
            r@ == Map::<Seq<u8>, AccountView>::empty(),
    {
        Ledger { entries: Vec::new() }
    }

    /// The domain of a ledger is always finite.
    pub proof fn lemma_dom_finite(self)
        ensures
            self@.dom().finite(),
    {
        lemma_as_map_finite(self.entry_views());
    }

    fn find_index(&self, addr: &Vec<u8>) -> (r: Option<usize>)
        requires
            self.wf(),
        ensures
            match r {
                Some(i) => i < self.entry_views().len() && self.entry_views()[i as int].0 == addr@
                    && self@.contains_key(addr@) && self@[addr@] == self.entry_views()[i as int].1,
                None => !self@.contains_key(addr@),
            },
    {
        let mut i: usize = 0;
        while i < self.entries.len()
            invariant
                self.wf(),
                i <= self.entries@.len(),
                self.entry_views().len() == self.entries@.len(),
                forall|j: int| 0 <= j < i ==> (#[trigger] self.entry_views()[j]).0 != addr@,
            decreases self.entries@.len() - i,
        {
            if bytes_eq(&self.entries[i].0, addr) {
                proof {
                    lemma_as_map_index(self.entry_views(), i as int);
                }
                return Some(i);
            }
            i += 1;
        }
        proof {
            lemma_as_map_contains(self.entry_views(), addr@);
        }
        None
    }

    /// Balance at an address.
    pub fn balance_of(&self, addr: &Vec<u8>) -> (r: u64)
        requires
            self.wf(),
        ensures
            r == spec_balance(self@, addr@),
    {
        match self.find_index(addr) {
            Some(i) => self.entries[i].1.lamports,
            None => 0,
        }
    }

    /// Number of bytes stored at an address.
    pub fn stored_len(&self, addr: &Vec<u8>) -> (r: usize)
        requires
            self.wf(),
        ensures
            r == spec_stored_len(self@, addr@),
    {
        match self.find_index(addr) {
            Some(i) => self.entries[i].1.data.len(),
            None => 0,
        }
    }

    /// Copy of the bytes stored at an address, if an account is there.
    pub fn read_slot(&self, addr: &Vec<u8>) -> (r: Option<Vec<u8>>)
        requires
            self.wf(),
        ensures
            match r {
                Some(d) => self@.contains_key(addr@) && d@ == self@[addr@].data,
                None => !self@.contains_key(addr@),
            },
    {
        match self.find_index(addr) {
            Some(i) => Some(slice_to_vec(self.entries[i].1.data.as_slice())),
            None => None,
        }
    }

    /// Replace the account at entry `i`, keeping its address.
    fn set_entry(&mut self, i: usize, account: SlotAccount)
        requires
            old(self).wf(),
            i < old(self).entry_views().len(),
            account@.owner_program.len() == IDENTITY_LEN,
        ensures
            final(self).wf(),
            final(self)@ == old(self)@.insert(old(self).entry_views()[i as int].0, account@),
    {
        let address = slice_to_vec(self.entries[i].0.as_slice());
        proof {
            lemma_as_map_update(self.entry_views(), i as int, account@);
        }
        self.entries[i] = (address, account);
        proof {
            assert(self.entry_views() =~= old(self).entry_views().update(
                i as int,
                (old(self).entry_views()[i as int].0, account@),
            ));
            assert(distinct_keys(self.entry_views()));
        }
    }

    /// Append an account at an address not yet present.
    fn push_entry(&mut self, address: Vec<u8>, account: SlotAccount)
        requires
            old(self).wf(),
            !old(self)@.contains_key(address@),
            address@.len() == IDENTITY_LEN,
            account@.owner_program.len() == IDENTITY_LEN,
        ensures
            final(self).wf(),
            final(self)@ == old(self)@.insert(address@, account@),
    {
        let ghost addr_view = address@;
        let ghost acct_view = account@;
        proof {
            lemma_as_map_contains(self.entry_views(), address@);
            lemma_as_map_push(self.entry_views(), address@, account@);
        }
        self.entries.push((address, account));
        proof {
            assert(self.entry_views() =~= old(self).entry_views().push((addr_view, acct_view)));
            assert(distinct_keys(self.entry_views()));
        }
    }

    /// Bring a system-owned, empty account holding `lamports` into
    /// existence, as the substrate's bookkeeping outside this subsystem
    /// does for payers. Refuses an address already in use.
    pub fn create_account(&mut self, addr: &Vec<u8>, lamports: u64) -> (r: bool)
        requires
            old(self).wf(),
            addr@.len() == IDENTITY_LEN,
        ensures
            final(self).wf(),
            r == !old(self)@.contains_key(addr@),
            r ==> final(self)@ == old(self)@.insert(
                addr@,
                AccountView { lamports, owner_program: system_owner(), data: Seq::empty() },
            ),
            !r ==> final(self)@ == old(self)@,
    {
        match self.find_index(addr) {
            Some(_) => false,
            None => {
                let account = SlotAccount {
                    lamports,
                    owner_program: zero_vec(IDENTITY_LEN),
                    data: Vec::new(),
                };
                self.push_entry(slice_to_vec(addr.as_slice()), account);
                true
            },
        }
    }

    /// Move `amount` from one address to another. Fails, leaving the map
    /// unchanged, exactly when the transfer cannot complete.
    pub fn transfer(&mut self, from: &Vec<u8>, to: &Vec<u8>, amount: u64) -> (r: Result<
        (),
        ErrorCode,
    >)
        requires
            old(self).wf(),
            from@.len() == IDENTITY_LEN,
            to@.len() == IDENTITY_LEN,
        ensures
            final(self).wf(),
            match r {
                Ok(()) => can_transfer(old(self)@, from@, to@, amount) && final(self)@
                    == spec_transfer(old(self)@, from@, to@, amount),
                Err(e) => e == ErrorCode::InsufficientPayerFunds && !can_transfer(
                    old(self)@,
                    from@,
                    to@,
                    amount,
                ) && final(self)@ == old(self)@,
            },
    {
        let from_balance = self.balance_of(from);
        if from_balance < amount {
            return Err(ErrorCode::InsufficientPayerFunds);
        }
        if bytes_eq(from, to) {
            return Ok(());
        }
        let to_balance = self.balance_of(to);
        if u64::MAX - to_balance < amount {
            return Err(ErrorCode::InsufficientPayerFunds);
        }
        match self.find_index(from) {
            Some(i) => {
                let owner_program = slice_to_vec(self.entries[i].1.owner_program.as_slice());
                let data = slice_to_vec(self.entries[i].1.data.as_slice());
                self.set_entry(
                    i,
                    SlotAccount { lamports: from_balance - amount, owner_program, data },
                );
            },
            None => {
                proof {
                    assert(spec_debit(old(self)@, from@, amount) == old(self)@);
                }
            },
        }
        proof {
            assert(self@ == spec_debit(old(self)@, from@, amount));
        }
        match self.find_index(to) {
            Some(j) => {
                let owner_program = slice_to_vec(self.entries[j].1.owner_program.as_slice());
                let data = slice_to_vec(self.entries[j].1.data.as_slice());
                let credited = self.entries[j].1.lamports + amount;
                self.set_entry(j, SlotAccount { lamports: credited, owner_program, data });
            },
            None => {
                let account = SlotAccount {
                    lamports: amount,
                    owner_program: zero_vec(IDENTITY_LEN),
                    data: Vec::new(),
                };
                self.push_entry(slice_to_vec(to.as_slice()), account);
            },
        }
        proof {
            assert(self@ =~= spec_transfer(old(self)@, from@, to@, amount));
        }
        Ok(())
    }

    /// Reserve exactly `size` zeroed bytes at an address. Fails, leaving
    /// the map unchanged, exactly when the address already stores bytes:
    /// the hard backstop that makes a slot creatable only once.
    pub fn allocate(&mut self, addr: &Vec<u8>, size: usize) -> (r: Result<(), ErrorCode>)
        requires
            old(self).wf(),
            addr@.len() == IDENTITY_LEN,
        ensures
            final(self).wf(),
            match r {
                Ok(()) => spec_stored_len(old(self)@, addr@) == 0 && final(self)@ == spec_allocate(
                    old(self)@,
                    addr@,
                    size as nat,
                ),
                Err(e) => e == ErrorCode::AddressAlreadyAllocated && spec_stored_len(
                    old(self)@,
                    addr@,
                ) > 0 && final(self)@ == old(self)@,
            },
    {
        match self.find_index(addr) {
            Some(i) => {
                if self.entries[i].1.data.len() > 0 {
                    return Err(ErrorCode::AddressAlreadyAllocated);
                }
                let lamports = self.entries[i].1.lamports;
                let owner_program = slice_to_vec(self.entries[i].1.owner_program.as_slice());
                self.set_entry(i, SlotAccount { lamports, owner_program, data: zero_vec(size) });
                proof {
                    assert(self@ =~= spec_allocate(old(self)@, addr@, size as nat));
                }
                Ok(())
            },
            None => {
                let account = SlotAccount {
                    lamports: 0,
                    owner_program: zero_vec(IDENTITY_LEN),
                    data: zero_vec(size),
                };
                self.push_entry(slice_to_vec(addr.as_slice()), account);
                proof {
                    assert(self@ =~= spec_allocate(old(self)@, addr@, size as nat));
                }
                Ok(())
            },
        }
    }

    /// Bind the account at an address to a new owning program, so that
    /// only that program's logic may later interpret its bytes.
    pub fn assign(&mut self, addr: &Vec<u8>, new_owner: &Vec<u8>)
        requires
            old(self).wf(),
            addr@.len() == IDENTITY_LEN,
            new_owner@.len() == IDENTITY_LEN,
        ensures
            final(self).wf(),
            final(self)@ == spec_assign(old(self)@, addr@, new_owner@),
    {
        match self.find_index(addr) {
            Some(i) => {
                let lamports = self.entries[i].1.lamports;
                let data = slice_to_vec(self.entries[i].1.data.as_slice());
                self.set_entry(
                    i,
                    SlotAccount { lamports, owner_program: slice_to_vec(new_owner.as_slice()), data },
                );
                proof {
                    assert(self@ =~= spec_assign(old(self)@, addr@, new_owner@));
                }
            },
            None => {
                let account = SlotAccount {
                    lamports: 0,
                    owner_program: slice_to_vec(new_owner.as_slice()),
                    data: Vec::new(),
                };
                self.push_entry(slice_to_vec(addr.as_slice()), account);
                proof {
                    assert(self@ =~= spec_assign(old(self)@, addr@, new_owner@));
                }
            },
        }
    }

    /// Overwrite the stored bytes of an existing account with bytes of
    /// the same length, the only mutation a write performs.
    pub fn write_slot(&mut self, addr: &Vec<u8>, data: &Vec<u8>)
        requires
            old(self).wf(),
            addr@.len() == IDENTITY_LEN,
            old(self)@.contains_key(addr@),
            old(self)@[addr@].data.len() == data@.len(),
        ensures
            final(self).wf(),
            final(self)@ == old(self)@.insert(
                addr@,
                AccountView { data: data@, ..old(self)@[addr@] },
            ),
    {
        match self.find_index(addr) {
            Some(i) => {
                let lamports = self.entries[i].1.lamports;
                let owner_program = slice_to_vec(self.entries[i].1.owner_program.as_slice());
                self.set_entry(
                    i,
                    SlotAccount { lamports, owner_program, data: slice_to_vec(data.as_slice()) },
                );
            },
            None => {
                proof {
                    assert(false);
                }
            },
        }
    }
}

} // verus!
