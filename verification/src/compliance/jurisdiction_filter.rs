//! Real-time compliance filter blocking restricted tokens or geo-fenced
//! features.

use vstd::prelude::*;
use vstd::string::*;
use crate::compression::state_snapshot::{fnv, fnv1a_hash};
use crate::fixed::min;

pub mod features;

verus! {

broadcast use vstd::array::group_array_axioms;

/// Maximum number of blocked tokens.
pub const MAX_BLOCKED_TOKENS: usize = 1024;

/// Maximum number of jurisdiction rules.
pub const MAX_JURISDICTIONS: usize = 64;

/// Bytes of a symbol that an entry keeps.
pub const SYMBOL_LEN: usize = 12;

/// Token hash.
pub type TokenHash = u64;

/// Jurisdiction codes.
#[derive(Debug, Clone, Copy, PartialEq, Eq, Structural)]
pub enum Jurisdiction {
    Unset,
    US,
    EU,
    UK,
    JP,
    CN,
    KR,
    SG,
    Global,
}

impl Jurisdiction {
    /// Number of the jurisdiction: its bit in a mask, its row in the rules.
    pub open spec fn spec_code(self) -> u64 {
        match self {
            Jurisdiction::Unset => 0,
            Jurisdiction::US => 1,
            Jurisdiction::EU => 2,
            Jurisdiction::UK => 3,
            Jurisdiction::JP => 4,
            Jurisdiction::CN => 5,
            Jurisdiction::KR => 6,
            Jurisdiction::SG => 7,
            Jurisdiction::Global => 255,
        }
    }

    /// Number of the jurisdiction: its bit in a mask, its row in the rules.
    pub fn code(self) -> (r: u64)
        ensures
            r == self.spec_code(),
    {
        match self {
            Jurisdiction::Unset => 0,
            Jurisdiction::US => 1,
            Jurisdiction::EU => 2,
            Jurisdiction::UK => 3,
            Jurisdiction::JP => 4,
            Jurisdiction::CN => 5,
            Jurisdiction::KR => 6,
            Jurisdiction::SG => 7,
            Jurisdiction::Global => 255,
        }
    }
}

/// Blocked token entry.
#[derive(Debug, Clone, Copy)]
pub struct BlockedToken {
    /// Token hash.
    pub hash: TokenHash,
    /// Symbol string (truncated).
    pub symbol: [u8; 12],
    /// Blocking reason code.
    pub reason: u16,
    /// Jurisdictions where blocked (bitmask).
    pub jurisdictions: u64,
    /// Active flag.
    pub is_active: bool,
    /// Fills the cache line.
    pub padding: [u8; 33],
}

impl BlockedToken {
    /// Entry that blocks nothing.
    pub open spec fn spec_new() -> Self {
        BlockedToken {
            hash: 0,
            symbol: vstd::array::spec_array_fill_for_copy_type::<u8, 12>(0u8),
            reason: 0,
            jurisdictions: 0,
            is_active: false,
            padding: vstd::array::spec_array_fill_for_copy_type::<u8, 33>(0u8),
        }
    }

    /// Entry that blocks nothing.
    pub fn new() -> (r: Self)
        ensures
            r == Self::spec_new(),
    {
        BlockedToken {
            hash: 0,
            symbol: [0u8; 12],
            reason: 0,
            jurisdictions: 0,
            is_active: false,
            padding: [0u8; 33],
        }
    }

    /// Whether the entry blocks `token_hash` in jurisdiction number `jurisdiction`.
    pub open spec fn blocks(self, token_hash: TokenHash, jurisdiction: u64) -> bool {
        self.is_active && self.hash == token_hash && (self.jurisdictions >> jurisdiction) & 1 == 1
    }
}

/// Jurisdiction rule entry.
#[derive(Debug, Clone, Copy)]
pub struct JurisdictionRule {
    /// Jurisdiction code.
    pub jurisdiction: Jurisdiction,
    /// Allowed features bitmask.
    pub allowed_features: u64,
    /// Blocked token count.
    pub blocked_count: u64,
    /// Active flag.
    pub is_active: bool,
    /// Fills the cache line.
    pub padding: [u8; 46],
}

impl JurisdictionRule {
    /// Rule that is not in force.
    pub open spec fn spec_new() -> Self {
        JurisdictionRule {
            jurisdiction: Jurisdiction::Unset,
            allowed_features: 0,
            blocked_count: 0,
            is_active: false,
            padding: vstd::array::spec_array_fill_for_copy_type::<u8, 46>(0u8),
        }
    }

    /// Rule that is not in force.
    pub fn new() -> (r: Self)
        ensures
            r == Self::spec_new(),
    {
        JurisdictionRule {
            jurisdiction: Jurisdiction::Unset,
            allowed_features: 0,
            blocked_count: 0,
            is_active: false,
            padding: [0u8; 46],
        }
    }
}

/// The first bytes of a symbol, with zeros (or what was there) behind them.
pub open spec fn symbol_bytes(prior: Seq<u8>, symbol: Seq<u8>) -> Seq<u8> {
    Seq::new(
        prior.len(),
        |k: int|
            if k < symbol.len() {
                symbol[k]
            } else {
                prior[k]
            },
    )
}

/// The jurisdiction filter.
#[derive(Debug)]
pub struct JurisdictionFilter {
    /// Blocked tokens list.
    pub blocked_tokens: [BlockedToken; 1024],
    /// Jurisdiction rules.
    pub rules: [JurisdictionRule; 64],
    /// Count of blocked tokens.
    pub token_count: u64,
    /// Current active jurisdiction.
    pub current_jurisdiction: u64,
    /// Total checks performed.
    pub check_count: u64,
    /// Total blocks.
    pub block_count: u64,
    /// Flag indicating if the filter is active.
    pub is_active: bool,
    /// Shadow mode (log but don't block).
    pub shadow_mode: bool,
}

impl JurisdictionFilter {
    /// The entries in use.
    pub open spec fn listed(&self) -> Seq<BlockedToken> {
        self.blocked_tokens@.take(min(self.token_count as int, MAX_BLOCKED_TOKENS as int))
    }

    /// Whether some entry blocks the token in the current jurisdiction.
    pub open spec fn blocked(&self, token_hash: TokenHash) -> bool {
        exists|i: int|
            0 <= i < self.listed().len() && (#[trigger] self.listed()[i]).blocks(
                token_hash,
                self.current_jurisdiction,
            )
    }

    /// No more entries are counted than there is room for.
    pub open spec fn wf(&self) -> bool {
        self.token_count <= MAX_BLOCKED_TOKENS
    }

    /// Create a new jurisdiction filter.
    pub fn new() -> (r: Self)
        ensures
            r.wf(),
            forall|i: int|
                0 <= i < MAX_BLOCKED_TOKENS ==> r.blocked_tokens@[i] == BlockedToken::spec_new(),
            forall|i: int| 0 <= i < MAX_JURISDICTIONS ==> r.rules@[i] == JurisdictionRule::spec_new(),
            r.token_count == 0,
            r.current_jurisdiction == Jurisdiction::Global.spec_code(),
            r.check_count == 0,
            r.block_count == 0,
            r.is_active,
            !r.shadow_mode,
    {
        JurisdictionFilter {
            blocked_tokens: [BlockedToken::new();1024],
            rules: [JurisdictionRule::new();64],
            token_count: 0,
            current_jurisdiction: Jurisdiction::Global.code(),
            check_count: 0,
            block_count: 0,
            is_active: true,
            shadow_mode: false,
        }
    }

    /// Add a blocked token. Gives its position in the list.
    pub fn add_blocked_token(
        &mut self,
        symbol: &[u8],
        hash: TokenHash,
        jurisdictions: u64,
        reason: u16,
    ) -> (r: Result<usize, &'static str>)
        requires
            old(self).wf(),
        ensures
            final(self).wf(),
            r is Err <==> old(self).token_count == MAX_BLOCKED_TOKENS,
            r is Ok <==> old(self).token_count < 1024,
            r is Err ==> r->Err_0 == "Blocked token list full" && *final(self) == *old(self),
            r is Ok ==> {
                let idx = old(self).token_count as int;
                let token = final(self).blocked_tokens@[idx];
                &&& r->Ok_0 == idx
                &&& token.hash == hash
                &&& token.symbol@ == symbol_bytes(old(self).blocked_tokens@[idx].symbol@, symbol@)
                &&& token.reason == reason
                &&& token.jurisdictions == jurisdictions
                &&& token.is_active
                &&& final(self).blocked_tokens@ == old(self).blocked_tokens@.update(idx, token)
                &&& *final(self) == (JurisdictionFilter {
                    blocked_tokens: final(self).blocked_tokens,
                    token_count: (idx + 1) as u64,
                    ..*old(self)
                })
            },
    {
        let idx: usize = self.token_count as usize;
        if idx >= MAX_BLOCKED_TOKENS {
            return Err("Blocked token list full");
        }
        self.token_count = (idx + 1) as u64;
        let mut token = self.blocked_tokens[idx];
        let ghost prior = token.symbol@;
        let mut k: usize = 0;
        while k < SYMBOL_LEN && k < symbol.len()
            invariant
                k <= SYMBOL_LEN,
                k <= symbol@.len(),
                prior.len() == SYMBOL_LEN,
                token.symbol@.len() == SYMBOL_LEN,
                forall|j: int| 0 <= j < k ==> token.symbol@[j] == symbol@[j],
                forall|j: int| k <= j < SYMBOL_LEN ==> token.symbol@[j] == prior[j],
            decreases SYMBOL_LEN - k,
        {
            token.symbol[k] = symbol[k];
            k = k + 1;
        }
        assert(token.symbol@ =~= symbol_bytes(prior, symbol@));
        token.hash = hash;
        token.reason = reason;
        token.jurisdictions = jurisdictions;
        token.is_active = true;
        self.blocked_tokens[idx] = token;
        Ok(idx)
    }

    /// Check if a token is allowed in the current jurisdiction. In shadow mode
    /// every token is, and blocks are not counted.
    pub fn check_token(&mut self, token_hash: TokenHash) -> (r: bool)
        requires
            old(self).is_active ==> old(self).current_jurisdiction < 64 || old(self).token_count
                == 0,
        ensures
            r == (!old(self).is_active || !old(self).blocked(token_hash) || old(self).shadow_mode),
            *final(self) == (if old(self).is_active {
                JurisdictionFilter {
                    check_count: old(self).check_count.wrapping_add(1),
                    block_count: if !r {
                        old(self).block_count.wrapping_add(1)
                    } else {
                        old(self).block_count
                    },
                    ..*old(self)
                }
            } else {
                *old(self)
            }),
    {
        if !self.is_active {
            return true;
        }
        self.check_count = self.check_count.wrapping_add(1);
        let jurisdiction: u64 = self.current_jurisdiction;
        let count: usize = if self.token_count < MAX_BLOCKED_TOKENS as u64 {
            self.token_count as usize
        } else {
            MAX_BLOCKED_TOKENS
        };
        let ghost listed = self.listed();
        assert(listed == old(self).listed());
        let mut is_blocked = false;
        let mut i: usize = 0;
        while i < count
            invariant
                i <= count <= MAX_BLOCKED_TOKENS,
                listed == self.blocked_tokens@.take(count as int),
                count > 0 ==> jurisdiction < 64,
                is_blocked == exists|k: int|
                    0 <= k < i && (#[trigger] listed[k]).blocks(token_hash, jurisdiction),
            decreases count - i,
        {
            let token = self.blocked_tokens[i];
            assert(listed[i as int] == token);
            if token.is_active && token.hash == token_hash && (token.jurisdictions >> jurisdiction)
                & 1 == 1 {
                is_blocked = true;
            }
            i = i + 1;
        }
        if is_blocked && !self.shadow_mode {
            self.block_count = self.block_count.wrapping_add(1);
        }
        !is_blocked || self.shadow_mode
    }

    /// Check if a feature is allowed: it is where no rule is in force.
    pub fn check_feature(&self, feature: u64) -> (r: bool)
        ensures
            r == (!self.is_active || self.current_jurisdiction >= MAX_JURISDICTIONS || {
                let rule = self.rules@[self.current_jurisdiction as int];
                !rule.is_active || rule.allowed_features & feature != 0
            }),
    {
        if !self.is_active {
            return true;
        }
        if self.current_jurisdiction >= MAX_JURISDICTIONS as u64 {
            return true;
        }
        let rule = self.rules[self.current_jurisdiction as usize];
        if !rule.is_active {
            return true;
        }
        (rule.allowed_features & feature) != 0
    }

    /// Set the current jurisdiction.
    pub fn set_jurisdiction(&mut self, jur: Jurisdiction)
        ensures
            *final(self) == (JurisdictionFilter {
                current_jurisdiction: jur.spec_code(),
                ..*old(self)
            }),
    {
        self.current_jurisdiction = jur.code();
    }

    /// Enable or disable shadow mode.
    pub fn set_shadow_mode(&mut self, enabled: bool)
        ensures
            *final(self) == (JurisdictionFilter { shadow_mode: enabled, ..*old(self) }),
    {
        self.shadow_mode = enabled;
    }

    /// Checks, blocks and listed tokens.
    pub fn get_stats(&self) -> (r: (u64, u64, u64))
        ensures
            r == (self.check_count, self.block_count, self.token_count),
    {
        (self.check_count, self.block_count, self.token_count)
    }

    /// Hash a symbol string.
    pub fn hash_symbol(symbol: &str) -> (r: TokenHash)
        ensures
            r == fnv(symbol.spec_bytes()),
    {
        fnv1a_hash(symbol.as_bytes())
    }

    /// Shut the filter down: it lets everything pass, and no entry is active.
    pub fn shutdown(&mut self)
        ensures
            forall|i: int|
                0 <= i < MAX_BLOCKED_TOKENS ==> final(self).blocked_tokens@[i] == (BlockedToken {
                    is_active: false,
                    ..old(self).blocked_tokens@[i]
                }),
            *final(self) == (JurisdictionFilter {
                blocked_tokens: final(self).blocked_tokens,
                is_active: false,
                ..*old(self)
            }),
    {
        self.is_active = false;
        let mut i: usize = 0;
        while i < MAX_BLOCKED_TOKENS
            invariant
                i <= MAX_BLOCKED_TOKENS,
                forall|k: int|
                    0 <= k < i ==> self.blocked_tokens@[k] == (BlockedToken {
                        is_active: false,
                        ..old(self).blocked_tokens@[k]
                    }),
                forall|k: int|
                    i <= k < MAX_BLOCKED_TOKENS ==> self.blocked_tokens@[k] == old(self).blocked_tokens@[k],
                *self == (JurisdictionFilter {
                    blocked_tokens: self.blocked_tokens,
                    is_active: false,
                    ..*old(self)
                }),
            decreases MAX_BLOCKED_TOKENS - i,
        {
            let mut token = self.blocked_tokens[i];
            token.is_active = false;
            self.blocked_tokens[i] = token;
            i = i + 1;
        }
    }
}

impl Default for JurisdictionFilter {
    fn default() -> (r: Self)
        ensures
            r.wf(),
            forall|i: int|
                0 <= i < MAX_BLOCKED_TOKENS ==> r.blocked_tokens@[i] == BlockedToken::spec_new(),
            forall|i: int| 0 <= i < MAX_JURISDICTIONS ==> r.rules@[i] == JurisdictionRule::spec_new(),
            r.token_count == 0,
            r.current_jurisdiction == Jurisdiction::Global.spec_code(),
            r.check_count == 0,
            r.block_count == 0,
            r.is_active,
            !r.shadow_mode,
    {
        Self::new()
    }
}

/// Once a token is listed for a jurisdiction, an active filter that is set to
/// that jurisdiction and not in shadow mode refuses it.
pub proof fn lemma_listed_is_blocked(f: JurisdictionFilter, i: int, jur: Jurisdiction)
    requires
        f.wf(),
        0 <= i < f.token_count,
        f.blocked_tokens@[i].is_active,
        (f.blocked_tokens@[i].jurisdictions >> jur.spec_code()) & 1 == 1,
        f.current_jurisdiction == jur.spec_code(),
    ensures
        f.blocked(f.blocked_tokens@[i].hash),
{
    assert(f.listed()[i].blocks(f.blocked_tokens@[i].hash, f.current_jurisdiction));
}

/// A token whose hash is not listed is never refused.
pub proof fn lemma_unlisted_is_allowed(f: JurisdictionFilter, token_hash: TokenHash)
    requires
        f.wf(),
        forall|i: int| 0 <= i < f.token_count ==> (#[trigger] f.blocked_tokens@[i]).hash != token_hash,
    ensures
        !f.blocked(token_hash),
{
    if f.blocked(token_hash) {
        let i = choose|i: int|
            0 <= i < f.listed().len() && (#[trigger] f.listed()[i]).blocks(
                token_hash,
                f.current_jurisdiction,
            );
        assert(f.listed()[i] == f.blocked_tokens@[i]);
    }
}

/// A token is blocked only by an entry of the list that is active, bears its hash and
/// has the bit of the current jurisdiction set.
pub proof fn lemma_blocked_by_an_entry(f: JurisdictionFilter, token_hash: TokenHash)
    requires
        f.wf(),
    ensures
        f.blocked(token_hash) <==> exists|i: int|
            {
                &&& 0 <= i < f.token_count
                &&& (#[trigger] f.blocked_tokens@[i]).is_active
                &&& f.blocked_tokens@[i].hash == token_hash
                &&& (f.blocked_tokens@[i].jurisdictions >> f.current_jurisdiction) & 1 == 1
            },
{
    if f.blocked(token_hash) {
        let i = choose|i: int|
            0 <= i < f.listed().len() && (#[trigger] f.listed()[i]).blocks(
                token_hash,
                f.current_jurisdiction,
            );
        assert(f.listed()[i] == f.blocked_tokens@[i]);
    }
    if exists|i: int|
        {
            &&& 0 <= i < f.token_count
            &&& (#[trigger] f.blocked_tokens@[i]).is_active
            &&& f.blocked_tokens@[i].hash == token_hash
            &&& (f.blocked_tokens@[i].jurisdictions >> f.current_jurisdiction) & 1 == 1
        } {
        let i = choose|i: int|
            {
                &&& 0 <= i < f.token_count
                &&& (#[trigger] f.blocked_tokens@[i]).is_active
                &&& f.blocked_tokens@[i].hash == token_hash
                &&& (f.blocked_tokens@[i].jurisdictions >> f.current_jurisdiction) & 1 == 1
            };
        assert(f.listed()[i] == f.blocked_tokens@[i]);
        assert(f.listed()[i].blocks(token_hash, f.current_jurisdiction));
    }
}

/// The list has room for a thousand and twenty-four tokens and is read up to its count.
pub proof fn lemma_list_is_read_to_its_count(f: JurisdictionFilter, i: int)
    ensures
        f.wf() <==> f.token_count <= 1024,
        f.wf() ==> f.listed().len() == f.token_count,
        f.wf() && 0 <= i < f.token_count ==> f.listed()[i] == f.blocked_tokens@[i],
{
}

/// Each jurisdiction has a bit of its own in a mask: none of their codes is shared, and
/// each but that of the whole world is a place in a mask of sixty-four.
pub proof fn lemma_codes_are_distinct(a: Jurisdiction, b: Jurisdiction)
    ensures
        a.spec_code() == b.spec_code() ==> a == b,
        a.spec_code() < 64 <==> a != Jurisdiction::Global,
        Jurisdiction::Unset.spec_code() == 0,
        Jurisdiction::US.spec_code() == 1,
        Jurisdiction::EU.spec_code() == 2,
        Jurisdiction::UK.spec_code() == 3,
        Jurisdiction::JP.spec_code() == 4,
        Jurisdiction::CN.spec_code() == 5,
        Jurisdiction::KR.spec_code() == 6,
        Jurisdiction::SG.spec_code() == 7,
        Jurisdiction::Global.spec_code() == 255,
{
}

/// A symbol is written from the front of its field; what it does not reach stays.
pub proof fn lemma_symbol_from_the_front(prior: Seq<u8>, symbol: Seq<u8>, k: int)
    requires
        0 <= k < prior.len(),
    ensures
        symbol_bytes(prior, symbol).len() == prior.len(),
        k < symbol.len() ==> symbol_bytes(prior, symbol)[k] == symbol[k],
        k >= symbol.len() ==> symbol_bytes(prior, symbol)[k] == prior[k],
{
}

} // verus!
