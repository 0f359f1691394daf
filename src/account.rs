use vstd::prelude::*;

verus! {

/// A 32-byte account identity: a user, a contract or an asset.
#[derive(Clone, Copy, Debug)]
pub struct AccountId(pub [u8; 32]);

impl AccountId {
    /// The all-zero identity, used where no account is set.
    pub fn zero() -> (r: AccountId)
        ensures
            forall|i: int| 0 <= i < 32 ==> #[trigger] r.0[i] == 0u8,
    {
        AccountId([0u8; 32])
    }
}

impl PartialEq for AccountId {
    fn eq(&self, o: &AccountId) -> (r: bool)
        ensures
            r == (self.0 == o.0),
    {
        let mut i: usize = 0;
        while i < 32
            invariant
                0 <= i <= 32,
                forall|j: int| 0 <= j < i ==> self.0[j] == o.0[j],
            decreases 32 - i,
        {
            if self.0[i] != o.0[i] {
                return false;
            }
            i = i + 1;
        }
        proof {
            assert(self.0 =~= o.0);
        }
        true
    }
}

impl Eq for AccountId {}

impl vstd::std_specs::cmp::PartialEqSpecImpl for AccountId {
    open spec fn obeys_eq_spec() -> bool {
        true
    }

    open spec fn eq_spec(&self, o: &AccountId) -> bool {
        self.0 == o.0
    }
}

/// Whether `list` holds `a`.
pub fn contains_account(list: &Vec<AccountId>, a: &AccountId) -> (r: bool)
    ensures
        r == list@.contains(*a),
{
    let mut i: usize = 0;
    while i < list.len()
        invariant
            0 <= i <= list@.len(),
            forall|j: int| 0 <= j < i ==> list@[j] != *a,
        decreases list@.len() - i,
    {
        if list[i] == *a {
            assert(list@[i as int] == *a);
            return true;
        }
        i = i + 1;
    }
    false
}

/// A copy of `list`.
pub fn copy_accounts(list: &Vec<AccountId>) -> (r: Vec<AccountId>)
    ensures
        r@ == list@,
{
    let mut out: Vec<AccountId> = Vec::new();
    let mut i: usize = 0;
    while i < list.len()
        invariant
            0 <= i <= list@.len(),
            out@ == list@.subrange(0, i as int),
        decreases list@.len() - i,
    {
        out.push(list[i]);
        i = i + 1;
        assert(out@ =~= list@.subrange(0, i as int));
    }
    assert(out@ =~= list@);
    out
}

} // verus!
