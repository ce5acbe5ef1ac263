//! Bank branches by their IFSC code.

use vstd::prelude::*;
use crate::table::{distinct, lemma_table_len, lemma_table_push, lemma_table_update, table};
use crate::text::{chars_of, same_chars};

verus! {

/// A bank branch.
#[derive(Debug, PartialEq, Eq)]
pub struct Branch {
    pub bank: String,
    pub ifsc: String,
    pub micr: String,
    pub branch: String,
    pub address: String,
    pub state: String,
    pub city: String,
    pub centre: String,
    pub district: String,
}

/// The mathematical value of a [`Branch`].
pub struct BranchView {
    pub bank: Seq<char>,
    pub ifsc: Seq<char>,
    pub micr: Seq<char>,
    pub branch: Seq<char>,
    pub address: Seq<char>,
    pub state: Seq<char>,
    pub city: Seq<char>,
    pub centre: Seq<char>,
    pub district: Seq<char>,
}

impl View for Branch {
    type V = BranchView;

    open spec fn view(&self) -> BranchView {
        BranchView {
            bank: self.bank@,
            ifsc: self.ifsc@,
            micr: self.micr@,
            branch: self.branch@,
            address: self.address@,
            state: self.state@,
            city: self.city@,
            centre: self.centre@,
            district: self.district@,
        }
    }
}

impl DeepView for Branch {
    type V = BranchView;

    open spec fn deep_view(&self) -> BranchView {
        self@
    }
}

impl Clone for Branch {
    fn clone(&self) -> (r: Self)
        ensures
            r@ == self@,
    {
        Branch {
            bank: self.bank.clone(),
            ifsc: self.ifsc.clone(),
            micr: self.micr.clone(),
            branch: self.branch.clone(),
            address: self.address.clone(),
            state: self.state.clone(),
            city: self.city.clone(),
            centre: self.centre.clone(),
            district: self.district.clone(),
        }
    }
}

/// The branches by their code: of two branches with one code the later
/// one stays.
pub open spec fn by_code(branches: Seq<BranchView>) -> Map<Seq<char>, BranchView>
    decreases branches.len(),
{
    if branches.len() == 0 {
        Map::empty()
    } else {
        by_code(branches.drop_last()).insert(branches.last().ifsc, branches.last())
    }
}

/// The codes of the branches, in their order.
spec fn codes_of(data: Seq<Branch>) -> Seq<Seq<char>> {
    Seq::new(data.len(), |i: int| data[i].ifsc@)
}

/// The index of bank branches.
pub struct IFSC {
    data: Vec<Branch>,
}

impl IFSC {
    /// The branches that the index holds, by their code.
    pub closed spec fn branches(&self) -> Map<Seq<char>, BranchView> {
        table(codes_of(self.data@), self.data.deep_view())
    }

    /// The index holds one branch for a code.
    #[verifier::type_invariant]
    spec fn sound(self) -> bool {
        distinct(codes_of(self.data@))
    }

    /// An index of the given branches: see [`by_code`].
    pub fn new(branches: Vec<Branch>) -> (r: Self)
        ensures
            r.branches() == by_code(branches.deep_view()),
    {
        let ghost given = branches.deep_view();
        let mut data: Vec<Branch> = Vec::new();
        proof {
            assert(given.take(0) =~= Seq::<BranchView>::empty());
            assert(table(codes_of(data@), data.deep_view()) =~= Map::<
                Seq<char>,
                BranchView,
            >::empty());
        }
        for branch in it: branches
            invariant
                it.seq().len() == given.len(),
                forall|j: int| 0 <= j < given.len() ==> (#[trigger] it.seq()[j])@ == given[j],
                distinct(codes_of(data@)),
                table(codes_of(data@), data.deep_view()) == by_code(given.take(it.index())),
        {
            let ghost keys = codes_of(data@);
            let ghost values = data.deep_view();
            proof {
                assert(branch@ == given[it.index()]);
                assert(given.take(it.index() + 1).drop_last() =~= given.take(it.index()));
            }
            let code = chars_of(branch.ifsc.as_str());
            let mut found: Option<usize> = None;
            let mut i: usize = 0;
            while i < data.len() && found.is_none()
                invariant
                    i <= data.len(),
                    keys == codes_of(data@),
                    code@ == branch.ifsc@,
                    match found {
                        Some(j) => j < data.len() && keys[j as int] == code@,
                        None => forall|j: int| 0 <= j < i ==> (#[trigger] keys[j]) != code@,
                    },
                decreases data.len() - i + if found is None { 1nat } else { 0nat },
            {
                if same_chars(&chars_of(data[i].ifsc.as_str()), &code) {
                    found = Some(i);
                } else {
                    i += 1;
                }
            }
            match found {
                Some(j) => {
                    data.set(j, branch);
                    proof {
                        assert(codes_of(data@) =~= keys);
                        assert(data.deep_view() =~= values.update(j as int, branch@));
                        lemma_table_update(keys, values, j as int, branch@);
                    }
                },
                None => {
                    data.push(branch);
                    proof {
                        assert(codes_of(data@) =~= keys.push(branch.ifsc@));
                        assert(data.deep_view() =~= values.push(branch@));
                        lemma_table_push(keys, values, branch.ifsc@, branch@);
                    }
                },
            }
        }
        assert(given.take(given.len() as int) =~= given);
        IFSC { data }
    }

    /// How many branches the index holds.
    pub fn len(&self) -> (r: usize)
        ensures
            r == self.branches().len(),
    {
        proof {
            use_type_invariant(self);
            lemma_table_len(codes_of(self.data@), self.data.deep_view());
        }
        self.data.len()
    }
}

} // verus!
