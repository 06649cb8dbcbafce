//! Negotiable transfer options and the accept/reject rules of option
//! negotiation.
//!
//! A transfer starts from protocol defaults. The requesting side proposes
//! the options it wants changed; the peer echoes back the subset it
//! accepts, as decimal strings. Only values the peer echoed are installed,
//! and always onto a fresh default set, so a proposed-but-unaccepted value
//! can never leak into the active configuration.

use vstd::prelude::*;

verus! {

/// Why a peer's accepted-option map was rejected.
#[derive(Clone, Copy, Debug, PartialEq, Eq, Structural)]
pub enum NegotiationError {
    /// The peer echoed an option this side never proposed.
    UnknownOption,
    /// An echoed value does not parse for its option's type.
    MalformedValue,
}

/// The negotiable options of the protocol.
#[derive(Clone, Copy, Debug, PartialEq, Eq, Structural)]
pub enum OptionKind {
    /// Bytes per data block.
    BlockSize,
    /// Seconds to wait for a response before retrying.
    Timeout,
    /// Total bytes of the transfer, declared or solicited.
    TransferSize,
    /// Blocks in flight before an acknowledgement is required.
    WindowSize,
}

/// Whether `b` is an ASCII decimal digit.
pub open spec fn is_digit(b: u8) -> bool {
    48 <= b <= 57
}

/// Whether `s` consists of decimal digits only.
pub open spec fn all_digits(s: Seq<u8>) -> bool {
    forall|i: int| 0 <= i < s.len() ==> is_digit(#[trigger] s[i])
}

/// The number the digit string `s` denotes, most significant digit first.
pub open spec fn dec_value(s: Seq<u8>) -> nat
    recommends
        all_digits(s),
    decreases s.len(),
{
    if s.len() == 0 {
        0
    } else {
        (dec_value(s.drop_last()) * 10 + (s.last() - 48)) as nat
    }
}

/// The number a byte string denotes, or nothing if it is empty or holds a
/// non-digit.
pub open spec fn parse_dec(s: Seq<u8>) -> Option<nat> {
    if s.len() >= 1 && all_digits(s) {
        Some(dec_value(s))
    } else {
        None
    }
}

/// The canonical decimal representation of `n`: no leading zeroes except
/// for zero itself.
pub open spec fn dec_rep(n: nat) -> Seq<u8>
    decreases n,
{
    if n < 10 {
        seq![(48 + n) as u8]
    } else {
        dec_rep(n / 10).push((48 + n % 10) as u8)
    }
}

/// A digit string's value never shrinks when more digits follow.
proof fn lemma_dec_value_prefix(s: Seq<u8>, i: int)
    requires
        0 <= i <= s.len(),
        all_digits(s),
    ensures
        dec_value(s.take(i)) <= dec_value(s),
    decreases s.len() - i,
{
    if i == s.len() {
        assert(s.take(i) =~= s);
    } else {
        assert(s.take(i + 1).drop_last() =~= s.take(i));
        assert(s.take(i + 1).last() == s[i]);
        lemma_dec_value_prefix(s, i + 1);
    }
}

/// Parses a decimal byte string into a `u64`: the digits' value when `s`
/// is all digits, non-empty and fits, nothing otherwise.
pub fn parse_u64(s: &[u8]) -> (r: Option<u64>)
    ensures
        r == (match parse_dec(s@) {
            Some(n) => if n <= u64::MAX {
                Some(n as u64)
            } else {
                None
            },
            None => None,
        }),
{
    if s.len() == 0 {
        return None;
    }
    let mut acc: u64 = 0;
    let mut i: usize = 0;
    while i < s.len()
        invariant
            0 <= i <= s@.len(),
            all_digits(s@.take(i as int)),
            acc == dec_value(s@.take(i as int)),
        decreases s@.len() - i,
    {
        let b = s[i];
        if b < 48 || b > 57 {
            proof {
                assert(!is_digit(s@[i as int]));
            }
            return None;
        }
        let d = (b - 48) as u64;
        let ghost prefix = s@.take(i as int);
        proof {
            assert(s@.take(i + 1).drop_last() =~= prefix);
            assert(s@.take(i + 1).last() == s@[i as int]);
        }
        match acc.checked_mul(10) {
            Some(t) => {
                match t.checked_add(d) {
                    Some(v) => {
                        acc = v;
                    },
                    None => {
                        proof {
                            if all_digits(s@) {
                                lemma_dec_value_prefix(s@, i + 1);
                            }
                        }
                        return None;
                    },
                }
            },
            None => {
                proof {
                    if all_digits(s@) {
                        lemma_dec_value_prefix(s@, i + 1);
                    }
                }
                return None;
            },
        }
        i = i + 1;
    }
    proof {
        assert(s@.take(i as int) =~= s@);
    }
    Some(acc)
}

/// Renders `n` as its canonical decimal byte string.
pub fn render_u64(n: u64) -> (r: Vec<u8>)
    ensures
        r@ == dec_rep(n as nat),
    decreases n,
{
    if n < 10 {
        let mut r: Vec<u8> = Vec::new();
        r.push(48 + n as u8);
        proof {
            assert(r@ =~= dec_rep(n as nat));
        }
        r
    } else {
        let mut r = render_u64(n / 10);
        r.push(48 + (n % 10) as u8);
        proof {
            assert(r@ =~= dec_rep(n as nat));
        }
        r
    }
}

/// The negotiable parameters of one transfer.
#[derive(Clone, Copy, Debug, PartialEq, Eq)]
pub struct OptionSet {
    /// Bytes per data block; 512 unless negotiated.
    pub block_size: u16,
    /// Seconds to wait for a response before retrying; 5 unless negotiated.
    pub timeout: u64,
    /// Blocks in flight per acknowledgement; 1 (stop-and-wait) unless
    /// negotiated.
    pub windowsize: u16,
    /// Total transfer size when declared or solicited.
    pub transfer_size: Option<u64>,
}

/// The slot of `s` that option `k` governs, widened to one shape.
pub open spec fn kind_slot(s: OptionSet, k: OptionKind) -> Option<u64> {
    match k {
        OptionKind::BlockSize => Some(s.block_size as u64),
        OptionKind::Timeout => Some(s.timeout),
        OptionKind::WindowSize => Some(s.windowsize as u64),
        OptionKind::TransferSize => s.transfer_size,
    }
}

/// Whether `v` is a well-formed value for option `k`: a decimal number
/// within the option's registered range.
pub open spec fn value_ok(k: OptionKind, v: Seq<u8>) -> bool {
    match parse_dec(v) {
        Some(n) => match k {
            OptionKind::BlockSize => 8 <= n <= 65464,
            OptionKind::Timeout => n <= u64::MAX,
            OptionKind::WindowSize => 1 <= n <= 65535,
            OptionKind::TransferSize => n <= u64::MAX,
        },
        None => false,
    }
}

/// The pairs of an option list as mathematical values.
pub open spec fn entries_view(v: Seq<(OptionKind, Vec<u8>)>) -> Seq<(OptionKind, Seq<u8>)> {
    Seq::new(v.len(), |i: int| (v[i].0, v[i].1@))
}

/// `s` with the value `n` installed into the slot of option `k`.
pub open spec fn install(s: OptionSet, k: OptionKind, n: nat) -> OptionSet
    recommends
        value_ok(k, dec_rep(n)),
{
    match k {
        OptionKind::BlockSize => OptionSet { block_size: n as u16, ..s },
        OptionKind::Timeout => OptionSet { timeout: n as u64, ..s },
        OptionKind::WindowSize => OptionSet { windowsize: n as u16, ..s },
        OptionKind::TransferSize => OptionSet { transfer_size: Some(n as u64), ..s },
    }
}

/// `s` after installing every parseable entry of `entries`, in order:
/// later entries win.
pub open spec fn install_all(s: OptionSet, entries: Seq<(OptionKind, Seq<u8>)>) -> OptionSet
    decreases entries.len(),
{
    if entries.len() == 0 {
        s
    } else {
        let rest = install_all(s, entries.drop_last());
        match parse_dec(entries.last().1) {
            Some(n) => install(rest, entries.last().0, n),
            None => rest,
        }
    }
}

/// What applying the accepted entries `entries` against the proposed set
/// `proposed` yields: rejection of any unsolicited option first, then of
/// any malformed value, else the defaults with the entries installed.
pub open spec fn apply_result(proposed: OptionSet, entries: Seq<(OptionKind, Seq<u8>)>) -> Result<
    OptionSet,
    NegotiationError,
> {
    if exists|i: int| 0 <= i < entries.len() && !proposed.proposes((#[trigger] entries[i]).0) {
        Err(NegotiationError::UnknownOption)
    } else if exists|i: int|
        0 <= i < entries.len() && !value_ok((#[trigger] entries[i]).0, entries[i].1) {
        Err(NegotiationError::MalformedValue)
    } else {
        Ok(install_all(OptionSet::default_spec(), entries))
    }
}

impl OptionSet {
    /// Whether every slot sits inside its option's registered range.
    pub open spec fn in_range(self) -> bool {
        &&& 8 <= self.block_size <= 65464
        &&& self.windowsize >= 1
    }

    /// The protocol defaults every transfer starts from.
    pub open spec fn default_spec() -> OptionSet {
        OptionSet { block_size: 512, timeout: 5, windowsize: 1, transfer_size: None }
    }

    /// Creates the default option set.
    pub fn defaults() -> (r: OptionSet)
        ensures
            r == OptionSet::default_spec(),
    {
        OptionSet { block_size: 512, timeout: 5, windowsize: 1, transfer_size: None }
    }

    /// Whether this side wants to propose option `k`: its slot departs
    /// from the default.
    pub open spec fn proposes(self, k: OptionKind) -> bool {
        kind_slot(self, k) != kind_slot(OptionSet::default_spec(), k)
    }

    /// Whether this side proposes option `k`.
    pub fn proposes_now(&self, k: OptionKind) -> (r: bool)
        ensures
            r == self.proposes(k),
    {
        match k {
            OptionKind::BlockSize => self.block_size != 512,
            OptionKind::Timeout => self.timeout != 5,
            OptionKind::WindowSize => self.windowsize != 1,
            OptionKind::TransferSize => self.transfer_size.is_some(),
        }
    }

    /// The option list this set proposes: each non-default slot with its
    /// decimal value, in a fixed order.
    pub open spec fn prepare_seq(self) -> Seq<(OptionKind, Seq<u8>)> {
        (if self.proposes(OptionKind::BlockSize) {
            seq![(OptionKind::BlockSize, dec_rep(self.block_size as nat))]
        } else {
            Seq::<(OptionKind, Seq<u8>)>::empty()
        }) + (if self.proposes(OptionKind::Timeout) {
            seq![(OptionKind::Timeout, dec_rep(self.timeout as nat))]
        } else {
            Seq::<(OptionKind, Seq<u8>)>::empty()
        }) + (match self.transfer_size {
            Some(n) => seq![(OptionKind::TransferSize, dec_rep(n as nat))],
            None => Seq::<(OptionKind, Seq<u8>)>::empty(),
        }) + (if self.proposes(OptionKind::WindowSize) {
            seq![(OptionKind::WindowSize, dec_rep(self.windowsize as nat))]
        } else {
            Seq::<(OptionKind, Seq<u8>)>::empty()
        })
    }

    /// Serializes only the options this side wants to propose; unset and
    /// default options are omitted.
    pub fn prepare(&self) -> (r: Vec<(OptionKind, Vec<u8>)>)
        ensures
            entries_view(r@) == self.prepare_seq(),
    {
        let mut r: Vec<(OptionKind, Vec<u8>)> = Vec::new();
        if self.block_size != 512 {
            r.push((OptionKind::BlockSize, render_u64(self.block_size as u64)));
        }
        if self.timeout != 5 {
            r.push((OptionKind::Timeout, render_u64(self.timeout)));
        }
        match self.transfer_size {
            Some(n) => {
                r.push((OptionKind::TransferSize, render_u64(n)));
            },
            None => {},
        }
        if self.windowsize != 1 {
            r.push((OptionKind::WindowSize, render_u64(self.windowsize as u64)));
        }
        proof {
            assert(entries_view(r@) =~= self.prepare_seq());
        }
        r
    }

    /// Interprets the peer's accepted-option list against this proposed
    /// set. Fails with `UnknownOption` when the peer echoed an option
    /// never proposed, with `MalformedValue` when every echoed option was
    /// proposed but a value does not parse; otherwise yields the defaults
    /// with exactly the echoed values installed.
    pub fn apply(&self, accepted: &Vec<(OptionKind, Vec<u8>)>) -> (r: Result<
        OptionSet,
        NegotiationError,
    >)
        ensures
            r == apply_result(*self, entries_view(accepted@)),
    {
        let n = accepted.len();
        let mut i: usize = 0;
        while i < n
            invariant
                n == accepted@.len(),
                0 <= i <= n,
                forall|j: int| 0 <= j < i ==> self.proposes((#[trigger] accepted@[j]).0),
            decreases n - i,
        {
            if !self.proposes_now(accepted[i].0) {
                proof {
                    assert(!self.proposes((#[trigger] entries_view(accepted@)[i as int]).0));
                }
                return Err(NegotiationError::UnknownOption);
            }
            i = i + 1;
        }
        let mut out = OptionSet::defaults();
        let mut i: usize = 0;
        while i < n
            invariant
                n == accepted@.len(),
                0 <= i <= n,
                forall|j: int| 0 <= j < n ==> self.proposes((#[trigger] accepted@[j]).0),
                forall|j: int|
                    0 <= j < i ==> value_ok((#[trigger] accepted@[j]).0, accepted@[j].1@),
                out == install_all(OptionSet::default_spec(), entries_view(accepted@).take(i as int)),
            decreases n - i,
        {
            let ghost pre = out;
            let kind = accepted[i].0;
            let parsed = parse_u64(accepted[i].1.as_slice());
            let mut well_formed = false;
            match parsed {
                None => {},
                Some(v) => {
                    match kind {
                        OptionKind::BlockSize => {
                            if 8 <= v && v <= 65464 {
                                out.block_size = v as u16;
                                well_formed = true;
                            }
                        },
                        OptionKind::Timeout => {
                            out.timeout = v;
                            well_formed = true;
                        },
                        OptionKind::WindowSize => {
                            if 1 <= v && v <= 65535 {
                                out.windowsize = v as u16;
                                well_formed = true;
                            }
                        },
                        OptionKind::TransferSize => {
                            out.transfer_size = Some(v);
                            well_formed = true;
                        },
                    }
                },
            }
            if !well_formed {
                proof {
                    let entries = entries_view(accepted@);
                    assert(!value_ok((#[trigger] entries[i as int]).0, entries[i as int].1));
                    assert forall|j: int| 0 <= j < entries.len() implies self.proposes(
                        (#[trigger] entries[j]).0,
                    ) by {
                        assert(entries[j].0 == accepted@[j].0);
                    }
                }
                return Err(NegotiationError::MalformedValue);
            }
            i = i + 1;
            proof {
                let entries = entries_view(accepted@);
                assert(entries.take(i as int).drop_last() =~= entries.take(i - 1));
                assert(entries.take(i as int).last() == entries[i - 1]);
            }
        }
        proof {
            let entries = entries_view(accepted@);
            assert(entries.take(n as int) =~= entries);
            assert forall|j: int| 0 <= j < entries.len() implies self.proposes(
                (#[trigger] entries[j]).0,
            ) && value_ok(entries[j].0, entries[j].1) by {
                assert(entries[j].0 == accepted@[j].0);
                assert(entries[j].1 == accepted@[j].1@);
            }
        }
        Ok(out)
    }
}

/// The canonical decimal representation parses back to the number it was
/// made from.
proof fn lemma_dec_rep_parses(n: nat)
    ensures
        parse_dec(dec_rep(n)) == Some(n),
    decreases n,
{
    if n < 10 {
        assert(dec_rep(n).drop_last() =~= Seq::<u8>::empty());
        assert(dec_value(Seq::<u8>::empty()) == 0);
        assert(dec_value(dec_rep(n)) == n);
    } else {
        lemma_dec_rep_parses(n / 10);
        assert(dec_rep(n).drop_last() =~= dec_rep(n / 10));
        assert(dec_rep(n).last() == (48 + n % 10) as u8);
        assert forall|i: int| 0 <= i < dec_rep(n).len() implies is_digit(
            #[trigger] dec_rep(n)[i],
        ) by {
            if i < dec_rep(n).len() - 1 {
                assert(dec_rep(n)[i] == dec_rep(n / 10)[i]);
            }
        }
        assert(dec_value(dec_rep(n)) == (n / 10) * 10 + n % 10);
    }
}

/// Installing a concatenation of accepted lists is installing one after
/// the other.
proof fn lemma_install_all_concat(
    s: OptionSet,
    a: Seq<(OptionKind, Seq<u8>)>,
    b: Seq<(OptionKind, Seq<u8>)>,
)
    ensures
        install_all(s, a + b) == install_all(install_all(s, a), b),
    decreases b.len(),
{
    if b.len() == 0 {
        assert(a + b =~= a);
    } else {
        assert((a + b).drop_last() =~= a + b.drop_last());
        assert((a + b).last() == b.last());
        lemma_install_all_concat(s, a, b.drop_last());
    }
}

/// Applying an accepted list never touches an option no entry names: its
/// slot keeps the value it had.
pub proof fn lemma_apply_untouched(s: OptionSet, entries: Seq<(OptionKind, Seq<u8>)>, k: OptionKind)
    requires
        forall|i: int| 0 <= i < entries.len() ==> (#[trigger] entries[i]).0 != k,
    ensures
        kind_slot(install_all(s, entries), k) == kind_slot(s, k),
    decreases entries.len(),
{
    if entries.len() > 0 {
        lemma_apply_untouched(s, entries.drop_last(), k);
    }
}

/// Applying an accepted list installs exactly the echoed values: the slot
/// of an option whose last entry carries a well-formed value `n` ends up
/// holding `n`.
pub proof fn lemma_apply_installs(s: OptionSet, entries: Seq<(OptionKind, Seq<u8>)>, i: int)
    requires
        0 <= i < entries.len(),
        value_ok(entries[i].0, entries[i].1),
        forall|j: int| i < j < entries.len() ==> (#[trigger] entries[j]).0 != entries[i].0,
    ensures
        kind_slot(install_all(s, entries), entries[i].0) == Some(
            (parse_dec(entries[i].1)->Some_0) as u64,
        ),
    decreases entries.len(),
{
    if i == entries.len() - 1 {
        assert(entries.last() == entries[i]);
    } else {
        lemma_apply_installs(s, entries.drop_last(), i);
        assert(entries.drop_last()[i] == entries[i]);
    }
}

/// A proposal echoed back in full is accepted and reinstalls exactly the
/// proposed values: applying a set's own prepared option list against it
/// succeeds and yields that set again.
pub proof fn lemma_prepare_round_trip(s: OptionSet)
    requires
        s.in_range(),
    ensures
        apply_result(s, s.prepare_seq()) == Ok::<OptionSet, NegotiationError>(s),
{
    let def = OptionSet::default_spec();
    let ps = s.prepare_seq();
    let a = if s.proposes(OptionKind::BlockSize) {
        seq![(OptionKind::BlockSize, dec_rep(s.block_size as nat))]
    } else {
        Seq::<(OptionKind, Seq<u8>)>::empty()
    };
    let b = if s.proposes(OptionKind::Timeout) {
        seq![(OptionKind::Timeout, dec_rep(s.timeout as nat))]
    } else {
        Seq::<(OptionKind, Seq<u8>)>::empty()
    };
    let c = match s.transfer_size {
        Some(n) => seq![(OptionKind::TransferSize, dec_rep(n as nat))],
        None => Seq::<(OptionKind, Seq<u8>)>::empty(),
    };
    let d = if s.proposes(OptionKind::WindowSize) {
        seq![(OptionKind::WindowSize, dec_rep(s.windowsize as nat))]
    } else {
        Seq::<(OptionKind, Seq<u8>)>::empty()
    };
    lemma_dec_rep_parses(s.block_size as nat);
    lemma_dec_rep_parses(s.timeout as nat);
    lemma_dec_rep_parses(s.windowsize as nat);
    if s.transfer_size is Some {
        lemma_dec_rep_parses(s.transfer_size->Some_0 as nat);
    }
    assert forall|i: int| 0 <= i < ps.len() implies s.proposes((#[trigger] ps[i]).0) && value_ok(
        ps[i].0,
        ps[i].1,
    ) by {
        if i < a.len() {
            assert(ps[i] == a[i]);
        } else if i < a.len() + b.len() {
            assert(ps[i] == b[i - a.len()]);
        } else if i < a.len() + b.len() + c.len() {
            assert(ps[i] == c[i - a.len() - b.len()]);
        } else {
            assert(ps[i] == d[i - a.len() - b.len() - c.len()]);
        }
    }
    let t1 = install_all(def, a);
    let t2 = install_all(def, a + b);
    let t3 = install_all(def, (a + b) + c);
    lemma_install_all_concat(def, a, b);
    lemma_install_all_concat(def, a + b, c);
    lemma_install_all_concat(def, (a + b) + c, d);
    if s.proposes(OptionKind::BlockSize) {
        assert(a.drop_last() =~= Seq::<(OptionKind, Seq<u8>)>::empty());
        assert(install_all(def, Seq::<(OptionKind, Seq<u8>)>::empty()) == def);
        assert(t1 == install(def, OptionKind::BlockSize, s.block_size as nat));
    }
    assert(t1 == OptionSet { block_size: s.block_size, ..def });
    if s.proposes(OptionKind::Timeout) {
        assert(b.drop_last() =~= Seq::<(OptionKind, Seq<u8>)>::empty());
        assert(install_all(t1, Seq::<(OptionKind, Seq<u8>)>::empty()) == t1);
        assert(install_all(t1, b) == install(t1, OptionKind::Timeout, s.timeout as nat));
    }
    assert(t2 == OptionSet { block_size: s.block_size, timeout: s.timeout, ..def });
    if s.transfer_size is Some {
        assert(c.drop_last() =~= Seq::<(OptionKind, Seq<u8>)>::empty());
        assert(install_all(t2, Seq::<(OptionKind, Seq<u8>)>::empty()) == t2);
        assert(install_all(t2, c) == install(
            t2,
            OptionKind::TransferSize,
            s.transfer_size->Some_0 as nat,
        ));
    }
    assert(t3 == OptionSet { windowsize: 1, ..s });
    if s.proposes(OptionKind::WindowSize) {
        assert(d.drop_last() =~= Seq::<(OptionKind, Seq<u8>)>::empty());
        assert(install_all(t3, Seq::<(OptionKind, Seq<u8>)>::empty()) == t3);
        assert(install_all(t3, d) == install(t3, OptionKind::WindowSize, s.windowsize as nat));
    }
    assert(install_all(def, ((a + b) + c) + d) == s);
    assert(ps == ((a + b) + c) + d);
}

} // verus!
