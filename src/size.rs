//! Deployed bytecode sizes and the size report that holds them to the deployment limit.
use vstd::prelude::*;
use crate::text::{
    lemma_lt_irreflexive, lemma_lt_total, lemma_lt_transitive, seq_lt, seq_starts_with, str_eq,
    str_less, str_starts_with,
};
use vstd::string::StrSliceExecFns;

verus! {

/// The largest deployed bytecode, in bytes, that the chain accepts (EIP-170).
pub const CONTRACT_SIZE_LIMIT: usize = 24576;

/// The largest size shown in the normal band.
pub const NORMAL_BAND_MAX: usize = 17999;

/// A compiled bytecode object: either concrete bytes, or hex text that still holds
/// library link placeholders.
#[derive(Debug, Clone)]
pub enum BytecodeObject {
    Bytecode(Vec<u8>),
    Unlinked(String),
}

/// The `0x` prefix of hex text.
pub open spec fn hex_prefix() -> Seq<char> {
    seq!['0', 'x']
}

/// Deployed size of a bytecode object. Unlinked text counts two hex characters
/// per byte after an optional `0x`; a placeholder spans 40 characters, as an
/// address does, so it needs no special case.
pub open spec fn bytecode_size(b: BytecodeObject) -> nat {
    match b {
        BytecodeObject::Bytecode(bytes) => bytes@.len(),
        BytecodeObject::Unlinked(s) => if seq_starts_with(s@, hex_prefix()) {
            ((s@.len() - 2) / 2) as nat
        } else {
            s@.len() / 2
        },
    }
}

/// Returns the size of the deployed contract, or nothing when there is no
/// deployed bytecode.
pub fn deployed_contract_size(bytecode: Option<&BytecodeObject>) -> (r: Option<usize>)
    ensures
        match bytecode {
            None => r is None,
            Some(b) => r matches Some(n) && n == bytecode_size(*b),
        },
{
    match bytecode {
        None => None,
        Some(BytecodeObject::Bytecode(bytes)) => Some(bytes.len()),
        Some(BytecodeObject::Unlinked(unlinked)) => {
            let mut size = unlinked.as_str().unicode_len();
            proof {
                reveal_strlit("0x");
                assert("0x"@ =~= hex_prefix());
            }
            if str_starts_with(unlinked.as_str(), "0x") {
                size = size - 2;
            }
            Some(size / 2)
        },
    }
}

/// Hex text of `2n` characters after `0x` gives `n` bytes, the same as the `n`
/// linked bytes it stands for, whatever placeholders the text holds.
pub proof fn lemma_size_placeholder_neutral(linked: BytecodeObject, unlinked: BytecodeObject)
    requires
        linked is Bytecode,
        unlinked is Unlinked,
        unlinked->Unlinked_0@.len() == 2 * linked->Bytecode_0@.len() + 2,
        seq_starts_with(unlinked->Unlinked_0@, hex_prefix()),
    ensures
        bytecode_size(linked) == linked->Bytecode_0@.len(),
        bytecode_size(unlinked) == bytecode_size(linked),
{
}

/// How big the contract is and whether it is a dev contract, whose size is not held
/// to the limit.
#[derive(Debug, Clone, Copy)]
pub struct ContractInfo {
    /// size of the contract in bytes
    pub size: usize,
    /// A development contract is either a Script or a Test contract.
    pub is_dev_contract: bool,
}

/// A function name that marks a test or script contract: a test function
/// (its name begins with `test`), or one of the markers `IS_TEST` and `IS_SCRIPT`.
pub open spec fn is_dev_function_name(n: Seq<char>) -> bool {
    seq_starts_with(n, seq!['t', 'e', 's', 't']) || n == seq!['I', 'S', '_', 'T', 'E', 'S', 'T']
        || n == seq!['I', 'S', '_', 'S', 'C', 'R', 'I', 'P', 'T']
}

/// Some function of the ABI marks a dev contract.
pub open spec fn has_dev_function(names: Seq<String>) -> bool {
    exists|i: int| 0 <= i < names.len() && is_dev_function_name(#[trigger] names[i]@)
}

/// Whether a function name marks a test or script contract.
pub fn is_dev_function(name: &str) -> (r: bool)
    ensures
        r == is_dev_function_name(name@),
{
    proof {
        reveal_strlit("test");
        reveal_strlit("IS_TEST");
        reveal_strlit("IS_SCRIPT");
        assert("test"@ =~= seq!['t', 'e', 's', 't']);
        assert("IS_TEST"@ =~= seq!['I', 'S', '_', 'T', 'E', 'S', 'T']);
        assert("IS_SCRIPT"@ =~= seq!['I', 'S', '_', 'S', 'C', 'R', 'I', 'P', 'T']);
    }
    str_starts_with(name, "test") || str_eq(name, "IS_TEST") || str_eq(name, "IS_SCRIPT")
}

/// Whether an ABI with these function names belongs to a test or script contract.
pub fn is_dev_contract(function_names: &Vec<String>) -> (r: bool)
    ensures
        r == has_dev_function(function_names@),
{
    let mut i: usize = 0;
    while i < function_names.len()
        invariant
            i <= function_names@.len(),
            forall|k: int| 0 <= k < i ==> !is_dev_function_name(#[trigger] function_names@[k]@),
        decreases function_names@.len() - i,
    {
        if is_dev_function(function_names[i].as_str()) {
            return true;
        }
        i = i + 1;
    }
    false
}

/// What the size report reads of one compiled contract.
#[derive(Debug, Clone)]
pub struct ContractArtifact {
    pub name: String,
    pub deployed_bytecode: Option<BytecodeObject>,
    /// the names of the functions in the contract's ABI
    pub function_names: Vec<String>,
}

/// The size entry of an artifact; no deployed bytecode counts as size 0.
pub open spec fn info_of(a: ContractArtifact) -> ContractInfo {
    ContractInfo {
        size: match a.deployed_bytecode {
            Some(b) => bytecode_size(b) as usize,
            None => 0,
        },
        is_dev_contract: has_dev_function(a.function_names@),
    }
}

/// Computes the size entry of one compiled contract.
pub fn contract_info(artifact: &ContractArtifact) -> (r: ContractInfo)
    ensures
        r == info_of(*artifact),
{
    let size = match deployed_contract_size(artifact.deployed_bytecode.as_ref()) {
        Some(n) => n,
        None => 0,
    };
    ContractInfo { size, is_dev_contract: is_dev_contract(&artifact.function_names) }
}

/// Contracts with their size entries, one entry per contract name.
pub struct SizeReport {
    /// `(contract name, info)` pairs, names distinct
    pub contracts: Vec<(String, ContractInfo)>,
}

/// The entry at `i` is held to the limit: it is not a dev contract.
pub open spec fn counts(entries: Seq<(String, ContractInfo)>, i: int) -> bool {
    !entries[i].1.is_dev_contract
}

/// Some non-dev contract is larger than the limit.
pub open spec fn some_over_limit(entries: Seq<(String, ContractInfo)>) -> bool {
    exists|i: int|
        0 <= i < entries.len() && counts(entries, i) && #[trigger] entries[i].1.size
            > CONTRACT_SIZE_LIMIT
}

/// `m` is the largest size among non-dev contracts, or 0 when there is none.
pub open spec fn is_max_size(entries: Seq<(String, ContractInfo)>, m: nat) -> bool {
    &&& forall|i: int| 0 <= i < entries.len() && counts(entries, i) ==> #[trigger] entries[i].1.size <= m
    &&& (m == 0 || exists|i: int|
        0 <= i < entries.len() && counts(entries, i) && #[trigger] entries[i].1.size == m)
}

/// The position of the entry named `name`, if any.
pub open spec fn has_name_at(entries: Seq<(String, ContractInfo)>, name: Seq<char>, i: int) -> bool {
    0 <= i < entries.len() && entries[i].0@ == name
}

/// Some entry is named `name`.
pub open spec fn has_name(entries: Seq<(String, ContractInfo)>, name: Seq<char>) -> bool {
    exists|i: int| #[trigger] has_name_at(entries, name, i)
}

impl SizeReport {
    /// Entries are in strictly increasing order of contract name, so names are distinct.
    pub open spec fn wf(&self) -> bool {
        forall|i: int, j: int|
            0 <= i < j < self.contracts@.len() ==> seq_lt(
                #[trigger] self.contracts@[i].0@,
                #[trigger] self.contracts@[j].0@,
            )
    }

    /// An empty report.
    pub fn new() -> (r: SizeReport)
        ensures
            r.wf(),
            r.contracts@.len() == 0,
    {
        SizeReport { contracts: Vec::new() }
    }

    /// Sets the entry of `name`: replaces the one that is there, or adds one at
    /// its place in name order.
    pub fn insert(&mut self, name: String, info: ContractInfo)
        requires
            old(self).wf(),
        ensures
            final(self).wf(),
            has_name(old(self).contracts@, name@) ==> exists|p: int|
                #[trigger] has_name_at(old(self).contracts@, name@, p) && final(self).contracts@
                    == old(self).contracts@.update(p, (name, info)),
            !has_name(old(self).contracts@, name@) ==> exists|p: int|
                0 <= p <= old(self).contracts@.len() && final(self).contracts@
                    == #[trigger] old(self).contracts@.insert(p, (name, info)),
    {
        let ghost before = self.contracts@;
        let mut p: usize = 0;
        while p < self.contracts.len() && str_less(self.contracts[p].0.as_str(), name.as_str())
            invariant
                self.contracts@ == before,
                p <= before.len(),
                forall|k: int| 0 <= k < p ==> seq_lt(#[trigger] before[k].0@, name@),
            decreases before.len() - p,
        {
            p = p + 1;
        }
        if p < self.contracts.len() && str_eq(self.contracts[p].0.as_str(), name.as_str()) {
            self.contracts.set(p, (name, info));
            proof {
                assert(has_name_at(before, name@, p as int));
                assert forall|i: int, j: int| 0 <= i < j < self.contracts@.len() implies seq_lt(
                    #[trigger] self.contracts@[i].0@,
                    #[trigger] self.contracts@[j].0@,
                ) by {
                    assert(self.contracts@[i].0@ == before[i].0@);
                    assert(self.contracts@[j].0@ == before[j].0@);
                }
            }
        } else {
            self.contracts.insert(p, (name, info));
            proof {
                let after = self.contracts@;
                assert(after == before.insert(p as int, (name, info)));
                if p < before.len() {
                    lemma_lt_total(before[p as int].0@, name@);
                }
                assert forall|k: int| 0 <= k < before.len() implies before[k].0@ != name@ by {
                    if k < p {
                        lemma_lt_irreflexive(name@);
                    } else {
                        lemma_lt_irreflexive(name@);
                        if k > p {
                            lemma_lt_transitive(name@, before[p as int].0@, before[k].0@);
                        }
                    }
                }
                assert(!has_name(before, name@));
                assert forall|i: int, j: int| 0 <= i < j < after.len() implies seq_lt(
                    #[trigger] after[i].0@,
                    #[trigger] after[j].0@,
                ) by {
                    if j < p {
                        assert(after[i] == before[i] && after[j] == before[j]);
                    } else if j == p {
                        assert(after[i] == before[i]);
                    } else if i < p {
                        assert(after[i] == before[i] && after[j] == before[j - 1]);
                        if j - 1 > p {
                            lemma_lt_transitive(name@, before[p as int].0@, before[j - 1].0@);
                        }
                        lemma_lt_transitive(before[i].0@, name@, before[j - 1].0@);
                    } else if i == p {
                        assert(after[j] == before[j - 1]);
                        if j - 1 > p {
                            lemma_lt_transitive(name@, before[p as int].0@, before[j - 1].0@);
                        }
                    } else {
                        assert(after[i] == before[i - 1] && after[j] == before[j - 1]);
                    }
                }
            }
        }
    }

    /// Returns the size of the largest contract, excluding dev contracts.
    pub fn max_size(&self) -> (r: usize)
        ensures
            is_max_size(self.contracts@, r as nat),
    {
        let mut max_size: usize = 0;
        let mut i: usize = 0;
        while i < self.contracts.len()
            invariant
                i <= self.contracts@.len(),
                is_max_size(self.contracts@.subrange(0, i as int), max_size as nat),
            decreases self.contracts@.len() - i,
        {
            let ghost prev = self.contracts@.subrange(0, i as int);
            let contract = self.contracts[i].1;
            if !contract.is_dev_contract && contract.size > max_size {
                max_size = contract.size;
            }
            proof {
                let next = self.contracts@.subrange(0, i + 1);
                assert forall|k: int| 0 <= k < next.len() && counts(next, k) implies
                    #[trigger] next[k].1.size <= max_size by {
                    if k < i {
                        assert(next[k] == prev[k]);
                    }
                }
                if max_size != 0 {
                    if max_size == contract.size && counts(next, i as int) {
                        assert(next[i as int].1.size == max_size);
                    } else {
                        let w = choose|k: int|
                            0 <= k < prev.len() && counts(prev, k) && #[trigger] prev[k].1.size == max_size;
                        assert(next[w] == prev[w]);
                    }
                }
            }
            i = i + 1;
        }
        assert(self.contracts@.subrange(0, i as int) =~= self.contracts@);
        max_size
    }

    /// Returns true if any contract exceeds the size limit, excluding dev contracts.
    pub fn exceeds_size_limit(&self) -> (r: bool)
        ensures
            r == some_over_limit(self.contracts@),
    {
        let m = self.max_size();
        proof {
            if m > CONTRACT_SIZE_LIMIT {
                let w = choose|k: int|
                    0 <= k < self.contracts@.len() && counts(self.contracts@, k)
                        && #[trigger] self.contracts@[k].1.size == m;
                assert(self.contracts@[w].1.size > CONTRACT_SIZE_LIMIT);
            }
        }
        m > CONTRACT_SIZE_LIMIT
    }
}

/// `j` is the last of the first `upto` artifacts that is named `name`.
pub open spec fn last_with_name(
    arts: Seq<ContractArtifact>,
    name: Seq<char>,
    j: int,
    upto: int,
) -> bool {
    &&& 0 <= j < upto
    &&& arts[j].name@ == name
    &&& forall|k: int| j < k < upto ==> #[trigger] arts[k].name@ != name
}

/// The entry holds the info of the last of the first `upto` artifacts with its name.
pub open spec fn holds_last(arts: Seq<ContractArtifact>, e: (String, ContractInfo), upto: int) -> bool {
    exists|j: int| #[trigger] last_with_name(arts, e.0@, j, upto) && e.1 == info_of(arts[j])
}

/// The entries are the report of the first `upto` artifacts: every artifact's name
/// has an entry, and each entry holds the info of the last artifact of that name.
pub open spec fn reports(entries: Seq<(String, ContractInfo)>, arts: Seq<ContractArtifact>, upto: int) -> bool {
    &&& forall|j: int| 0 <= j < upto ==> #[trigger] has_name(entries, arts[j].name@)
    &&& forall|i: int| 0 <= i < entries.len() ==> #[trigger] holds_last(arts, entries[i], upto)
}

/// How a size is emphasised in the rendered table.
#[derive(Debug, Clone, Copy, PartialEq, Eq)]
pub enum SizeBand {
    Normal,
    Warning,
    Critical,
}

/// Up to 17999 bytes normal, up to the limit a warning, beyond it critical.
pub open spec fn band_of(size: int) -> SizeBand {
    if size <= NORMAL_BAND_MAX {
        SizeBand::Normal
    } else if size <= CONTRACT_SIZE_LIMIT {
        SizeBand::Warning
    } else {
        SizeBand::Critical
    }
}

/// The band of a contract size.
pub fn size_band(size: usize) -> (r: SizeBand)
    ensures
        r == band_of(size as int),
{
    if size <= NORMAL_BAND_MAX {
        SizeBand::Normal
    } else if size <= CONTRACT_SIZE_LIMIT {
        SizeBand::Warning
    } else {
        SizeBand::Critical
    }
}

/// Bytes left under the limit; negative when the contract is over it.
pub fn size_margin(size: usize) -> (r: i128)
    ensures
        r == CONTRACT_SIZE_LIMIT - size,
{
    CONTRACT_SIZE_LIMIT as i128 - size as i128
}

/// One line of the size table.
#[derive(Debug, Clone)]
pub struct SizeRow {
    pub name: String,
    /// size in bytes
    pub size: usize,
    /// bytes left under the limit
    pub margin: i128,
    pub band: SizeBand,
}

/// A contract appears in the table when it is not a dev contract and has code.
pub open spec fn is_shown(e: (String, ContractInfo)) -> bool {
    !e.1.is_dev_contract && e.1.size > 0
}

/// The table line of an entry.
pub open spec fn row_of(e: (String, ContractInfo)) -> SizeRow {
    SizeRow {
        name: e.0,
        size: e.1.size,
        margin: (CONTRACT_SIZE_LIMIT - e.1.size) as i128,
        band: band_of(e.1.size as int),
    }
}

/// The table lines of a sequence of entries, in order.
pub open spec fn rows_of(entries: Seq<(String, ContractInfo)>) -> Seq<SizeRow> {
    entries.filter(|e: (String, ContractInfo)| is_shown(e)).map_values(|e: (String, ContractInfo)| row_of(e))
}

impl SizeReport {
    /// Builds the report of a set of compiled contracts; a later artifact of the
    /// same name replaces an earlier one.
    pub fn build(artifacts: &Vec<ContractArtifact>) -> (r: SizeReport)
        ensures
            r.wf(),
            reports(r.contracts@, artifacts@, artifacts@.len() as int),
    {
        let mut report = SizeReport::new();
        let mut j: usize = 0;
        while j < artifacts.len()
            invariant
                j <= artifacts@.len(),
                report.wf(),
                reports(report.contracts@, artifacts@, j as int),
            decreases artifacts@.len() - j,
        {
            let ghost before = report.contracts@;
            let art = &artifacts[j];
            let info = contract_info(art);
            let name = art.name.clone();
            report.insert(name, info);
            proof {
                let arts = artifacts@;
                let after = report.contracts@;
                let n = arts[j as int].name@;
                let e = (arts[j as int].name, info);
                if has_name(before, n) {
                    let p = choose|p: int| #[trigger] has_name_at(before, n, p) && after == before.update(p, e);
                    assert forall|jj: int| 0 <= jj < j + 1 implies #[trigger] has_name(after, arts[jj].name@) by {
                        if jj == j {
                            assert(has_name_at(after, n, p));
                        } else {
                            assert(has_name(before, arts[jj].name@));
                            let i = choose|i: int| #[trigger] has_name_at(before, arts[jj].name@, i);
                            assert(has_name_at(after, arts[jj].name@, i));
                        }
                    }
                    assert forall|i: int| 0 <= i < after.len() implies #[trigger] holds_last(arts, after[i], j + 1) by {
                        if i == p {
                            assert(last_with_name(arts, after[i].0@, j as int, j + 1));
                        } else {
                            if i < p {
                                assert(seq_lt(before[i].0@, before[p].0@));
                                lemma_lt_irreflexive(before[i].0@);
                            } else {
                                assert(seq_lt(before[p].0@, before[i].0@));
                                lemma_lt_irreflexive(before[i].0@);
                            }
                            assert(holds_last(arts, before[i], j as int));
                            let jj = choose|jj: int|
                                #[trigger] last_with_name(arts, before[i].0@, jj, j as int) && before[i].1
                                    == info_of(arts[jj]);
                            assert(last_with_name(arts, after[i].0@, jj, j + 1));
                        }
                    }
                } else {
                    let p = choose|p: int| 0 <= p <= before.len() && after == #[trigger] before.insert(p, e);
                    assert(after == before.insert(p, e));
                    assert forall|jj: int| 0 <= jj < j + 1 implies #[trigger] has_name(after, arts[jj].name@) by {
                        if jj == j {
                            assert(has_name_at(after, n, p));
                        } else {
                            assert(has_name(before, arts[jj].name@));
                            let i = choose|i: int| #[trigger] has_name_at(before, arts[jj].name@, i);
                            if i < p {
                                assert(has_name_at(after, arts[jj].name@, i));
                            } else {
                                assert(has_name_at(after, arts[jj].name@, i + 1));
                            }
                        }
                    }
                    assert forall|i: int| 0 <= i < after.len() implies #[trigger] holds_last(arts, after[i], j + 1) by {
                        if i == p {
                            assert(last_with_name(arts, after[i].0@, j as int, j + 1));
                        } else {
                            let bi = if i < p { i } else { i - 1 };
                            assert(after[i] == before[bi]);
                            assert(!has_name_at(before, n, bi));
                            assert(holds_last(arts, before[bi], j as int));
                            let jj = choose|jj: int|
                                #[trigger] last_with_name(arts, before[bi].0@, jj, j as int) && before[bi].1
                                    == info_of(arts[jj]);
                            assert(last_with_name(arts, after[i].0@, jj, j + 1));
                        }
                    }
                }
            }
            j = j + 1;
        }
        report
    }

    /// The table lines: non-dev contracts with code, in report order.
    pub fn rows(&self) -> (r: Vec<SizeRow>)
        ensures
            r@ == rows_of(self.contracts@),
    {
        let mut out: Vec<SizeRow> = Vec::new();
        let mut i: usize = 0;
        while i < self.contracts.len()
            invariant
                i <= self.contracts@.len(),
                out@ == rows_of(self.contracts@.subrange(0, i as int)),
            decreases self.contracts@.len() - i,
        {
            let ghost prev = self.contracts@.subrange(0, i as int);
            let ghost next = self.contracts@.subrange(0, i + 1);
            proof {
                assert(next.drop_last() =~= prev);
                reveal(Seq::filter);
            }
            let entry = &self.contracts[i];
            if !entry.1.is_dev_contract && entry.1.size > 0 {
                let row = SizeRow {
                    name: entry.0.clone(),
                    size: entry.1.size,
                    margin: size_margin(entry.1.size),
                    band: size_band(entry.1.size),
                };
                out.push(row);
                proof {
                    let f = |e: (String, ContractInfo)| is_shown(e);
                    assert(next.filter(f) == prev.filter(f).push(next.last()));
                    assert(out@ =~= rows_of(next));
                }
            } else {
                proof {
                    let f = |e: (String, ContractInfo)| is_shown(e);
                    assert(next.filter(f) == prev.filter(f));
                }
            }
            i = i + 1;
        }
        assert(self.contracts@.subrange(0, i as int) =~= self.contracts@);
        out
    }
}

/// A report is over the limit exactly when some non-dev contract is larger than
/// the limit; a report whose large contracts are all dev contracts never is.
pub proof fn lemma_limit_ignores_dev_contracts(entries: Seq<(String, ContractInfo)>)
    ensures
        some_over_limit(entries) <==> exists|i: int|
            0 <= i < entries.len() && !entries[i].1.is_dev_contract && #[trigger] entries[i].1.size
                > CONTRACT_SIZE_LIMIT,
        (forall|i: int| 0 <= i < entries.len() && #[trigger] entries[i].1.size > CONTRACT_SIZE_LIMIT
            ==> entries[i].1.is_dev_contract) ==> !some_over_limit(entries),
{
}

} // verus!
