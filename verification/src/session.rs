//! What a front end is told: listed apps, the outcome of a launch, and the names
//! of containers.

use vstd::prelude::*;

use crate::ipa::discovery;
use crate::ipa::discovery::{BundleView, IpaBundle};
use crate::text;

verus! {

/// One discovered app, flattened for the front end.
#[derive(Clone, Debug)]
pub struct AppInfo {
    pub name: String,
    pub bundle_identifier: String,
    pub minimum_os_version: String,
    pub ipa_path: String,
    /// PNG icon bytes, if present.
    pub icon_png: Option<Vec<u8>>,
}

/// Mathematical view of [`AppInfo`].
#[verifier::ext_equal]
pub struct AppView {
    pub name: Seq<char>,
    pub bundle_identifier: Seq<char>,
    pub minimum_os_version: Seq<char>,
    pub ipa_path: Seq<char>,
    pub icon_png: Option<Seq<u8>>,
}

impl View for AppInfo {
    type V = AppView;

    open spec fn view(&self) -> AppView {
        AppView {
            name: self.name@,
            bundle_identifier: self.bundle_identifier@,
            minimum_os_version: self.minimum_os_version@,
            ipa_path: self.ipa_path@,
            icon_png: discovery::maybe_bytes(self.icon_png),
        }
    }
}

/// What the front end is told of a bundle.
pub open spec fn app_of(b: BundleView) -> AppView {
    AppView {
        name: b.metadata.name,
        bundle_identifier: b.metadata.bundle_identifier,
        minimum_os_version: b.metadata.minimum_os_version,
        ipa_path: b.ipa_path,
        icon_png: b.metadata.icon_png,
    }
}

/// Flatten a bundle for the front end.
pub fn app_info(b: IpaBundle) -> (r: AppInfo)
    ensures
        r@ == app_of(b@),
{
    AppInfo {
        name: b.metadata.name,
        bundle_identifier: b.metadata.bundle_identifier,
        minimum_os_version: b.metadata.minimum_os_version,
        ipa_path: b.ipa_path,
        icon_png: b.metadata.icon_png,
    }
}

/// Flatten the listed bundles, in order.
pub fn listing(bundles: Vec<IpaBundle>) -> (r: Vec<AppInfo>)
    ensures
        r@.map_values(|a: AppInfo| a@) == bundles@.map_values(|b: IpaBundle| app_of(b@)),
{
    let mut rest = bundles;
    let mut out: Vec<AppInfo> = Vec::new();
    let ghost all = bundles@;
    while rest.len() > 0
        invariant
            out@.len() + rest@.len() == all.len(),
            forall|i: int| 0 <= i < rest@.len() ==> #[trigger] rest@[i] == all[out@.len() + i],
            forall|i: int| 0 <= i < out@.len() ==> #[trigger] out@[i]@ == app_of(all[i]@),
        decreases rest@.len(),
    {
        let ghost before = rest@;
        assert(before[0] == all[out@.len() as int]);
        let b = rest.remove(0);
        assert forall|i: int| 0 <= i < rest@.len() implies #[trigger] rest@[i] == all[out@.len() + 1
            + i] by {
            assert(rest@[i] == before[i + 1]);
        }
        out.push(app_info(b));
    }
    assert(out@.map_values(|a: AppInfo| a@) =~= all.map_values(|b: IpaBundle| app_of(b@)));
    out
}

/// Result of a launch attempt.
#[derive(Clone, Debug)]
pub struct LaunchOutcome {
    pub exit_code: i32,
    pub message: String,
}

/// Report a launch: the guest's exit code, or why it did not come to one.
pub fn launch_outcome(result: Result<i32, String>) -> (r: LaunchOutcome)
    ensures
        match result {
            Ok(code) => r.exit_code == code && r.message@ == "exited"@,
            Err(m) => r.exit_code == -1 && r.message@ == m@,
        },
{
    match result {
        Ok(exit_code) => LaunchOutcome { exit_code, message: "exited".to_owned() },
        Err(message) => LaunchOutcome { exit_code: -1, message },
    }
}

// ---- container names --------------------------------------------------------

/// The multiplier that spreads the launch counter over 64 bits.
pub const SPREAD: u64 = 0x9e37_79b9_7f4a_7c15;

/// The first half of a container's identifier.
pub open spec fn uuid_high(nanos: u64, pid: u64) -> u64 {
    nanos ^ (pid << 32)
}

/// The second half of a container's identifier.
pub open spec fn uuid_low(nanos: u64, seq: u64) -> u64 {
    ((nanos << 17) | (nanos >> 47)) ^ ((seq * SPREAD) % 0x1_0000_0000_0000_0000) as u64
}

/// `n` in upper-case hexadecimal with at least `w` digits.
pub open spec fn group(n: u64, w: nat) -> Seq<char> {
    text::zero_padded(text::numeral(n as nat, 16, true), w)
}

/// Two halves written in the five groups of a UUID.
pub open spec fn uuid_text(a: u64, b: u64) -> Seq<char> {
    group((a / 0x1_0000_0000) as u64, 8) + "-"@ + group((a / 0x1_0000 % 0x1_0000) as u64, 4) + "-"@
        + group((a % 0x1_0000) as u64, 4) + "-"@ + group((b / 0x1_0000_0000_0000) as u64, 4) + "-"@
        + group((b % 0x1_0000_0000_0000) as u64, 12)
}

/// A container identifier made of the time, the process and a launch counter.
pub open spec fn uuid(nanos: u64, pid: u64, seq: u64) -> Seq<char> {
    uuid_text(uuid_high(nanos, pid), uuid_low(nanos, seq))
}

/// Make a container identifier from the time in nanoseconds, the process and a
/// launch counter. It has the shape of a UUID without being one: it only names a
/// directory.
pub fn format_uuid(nanos: u64, pid: u64, seq: u64) -> (r: String)
    ensures
        r@ == uuid(nanos, pid, seq),
{
    let a: u64 = nanos ^ (pid << 32);
    let b: u64 = ((nanos << 17) | (nanos >> 47)) ^ seq.wrapping_mul(SPREAD);
    let g1 = text::hex_padded(a / 0x1_0000_0000, 8, true);
    let g2 = text::hex_padded(a / 0x1_0000 % 0x1_0000, 4, true);
    let g3 = text::hex_padded(a % 0x1_0000, 4, true);
    let g4 = text::hex_padded(b / 0x1_0000_0000_0000, 4, true);
    let g5 = text::hex_padded(b % 0x1_0000_0000_0000, 12, true);
    let mut s = g1;
    s.append("-");
    s.append(g2.as_str());
    s.append("-");
    s.append(g3.as_str());
    s.append("-");
    s.append(g4.as_str());
    s.append("-");
    s.append(g5.as_str());
    s
}

/// The groups of an identifier and what they write.
proof fn lemma_groups(a: u64, b: u64)
    ensures
        uuid_text(a, b).len() == 36,
        uuid_text(a, b).subrange(0, 8) == group((a / 0x1_0000_0000) as u64, 8),
        uuid_text(a, b).subrange(9, 13) == group((a / 0x1_0000 % 0x1_0000) as u64, 4),
        uuid_text(a, b).subrange(14, 18) == group((a % 0x1_0000) as u64, 4),
        uuid_text(a, b).subrange(19, 23) == group((b / 0x1_0000_0000_0000) as u64, 4),
        uuid_text(a, b).subrange(24, 36) == group((b % 0x1_0000_0000_0000) as u64, 12),
        uuid_text(a, b)[8] == '-',
        uuid_text(a, b)[13] == '-',
        uuid_text(a, b)[18] == '-',
        uuid_text(a, b)[23] == '-',
        group((a / 0x1_0000_0000) as u64, 8).len() == 8,
        group((a / 0x1_0000 % 0x1_0000) as u64, 4).len() == 4,
        group((a % 0x1_0000) as u64, 4).len() == 4,
        group((b / 0x1_0000_0000_0000) as u64, 4).len() == 4,
        group((b % 0x1_0000_0000_0000) as u64, 12).len() == 12,
        text::hex_value(group((a / 0x1_0000_0000) as u64, 8)) == a / 0x1_0000_0000,
        text::hex_value(group((a / 0x1_0000 % 0x1_0000) as u64, 4)) == a / 0x1_0000 % 0x1_0000,
        text::hex_value(group((a % 0x1_0000) as u64, 4)) == a % 0x1_0000,
        text::hex_value(group((b / 0x1_0000_0000_0000) as u64, 4)) == b / 0x1_0000_0000_0000,
        text::hex_value(group((b % 0x1_0000_0000_0000) as u64, 12)) == b % 0x1_0000_0000_0000,
        !group((a / 0x1_0000_0000) as u64, 8).contains('-'),
        !group((a / 0x1_0000 % 0x1_0000) as u64, 4).contains('-'),
        !group((a % 0x1_0000) as u64, 4).contains('-'),
        !group((b / 0x1_0000_0000_0000) as u64, 4).contains('-'),
        !group((b % 0x1_0000_0000_0000) as u64, 12).contains('-'),
{
    reveal_strlit("-");
    assert(text::hex_span(4) == 0x1_0000 && text::hex_span(8) == 0x1_0000_0000 && text::hex_span(12)
        == 0x1_0000_0000_0000) by {
        reveal_with_fuel(text::hex_span, 13);
    }
    text::lemma_hex_group((a / 0x1_0000_0000) as nat, true, 8);
    text::lemma_hex_group((a / 0x1_0000 % 0x1_0000) as nat, true, 4);
    text::lemma_hex_group((a % 0x1_0000) as nat, true, 4);
    text::lemma_hex_group((b / 0x1_0000_0000_0000) as nat, true, 4);
    text::lemma_hex_group((b % 0x1_0000_0000_0000) as nat, true, 12);
    let s = uuid_text(a, b);
    assert(s.subrange(0, 8) =~= group((a / 0x1_0000_0000) as u64, 8));
    assert(s.subrange(9, 13) =~= group((a / 0x1_0000 % 0x1_0000) as u64, 4));
    assert(s.subrange(14, 18) =~= group((a % 0x1_0000) as u64, 4));
    assert(s.subrange(19, 23) =~= group((b / 0x1_0000_0000_0000) as u64, 4));
    assert(s.subrange(24, 36) =~= group((b % 0x1_0000_0000_0000) as u64, 12));
}

/// An identifier has the shape of a UUID: groups of eight, four, four, four and
/// twelve characters with dashes between them and nowhere else.
pub proof fn identifiers_are_uuid_shaped(nanos: u64, pid: u64, seq: u64)
    ensures
        uuid(nanos, pid, seq).len() == 36,
        forall|i: int|
            0 <= i < 36 ==> (#[trigger] uuid(nanos, pid, seq)[i] == '-' <==> i == 8 || i == 13 || i
                == 18 || i == 23),
{
    let s = uuid(nanos, pid, seq);
    lemma_groups(uuid_high(nanos, pid), uuid_low(nanos, seq));
    assert forall|i: int| 0 <= i < 36 implies (#[trigger] s[i] == '-' <==> i == 8 || i == 13 || i
        == 18 || i == 23) by {
        if i < 8 {
            assert(s.subrange(0, 8)[i] == s[i]);
            assert(s.subrange(0, 8).contains(s[i]));
        } else if 8 < i < 13 {
            assert(s.subrange(9, 13)[i - 9] == s[i]);
            assert(s.subrange(9, 13).contains(s[i]));
        } else if 13 < i < 18 {
            assert(s.subrange(14, 18)[i - 14] == s[i]);
            assert(s.subrange(14, 18).contains(s[i]));
        } else if 18 < i < 23 {
            assert(s.subrange(19, 23)[i - 19] == s[i]);
            assert(s.subrange(19, 23).contains(s[i]));
        } else if 23 < i {
            assert(s.subrange(24, 36)[i - 24] == s[i]);
            assert(s.subrange(24, 36).contains(s[i]));
        }
    }
}

/// The multiplier is odd, so it loses nothing of the counter.
proof fn lemma_spread(x: u64, y: u64)
    requires
        (x * SPREAD) % 0x1_0000_0000_0000_0000 == (y * SPREAD) % 0x1_0000_0000_0000_0000,
    ensures
        x == y,
{
    let m: int = 0x1_0000_0000_0000_0000;
    let inverse: int = 0xf1de_83e1_9937_733d;
    assert(SPREAD * inverse == 10771413168148108919 * m + 1);
    vstd::arithmetic::div_mod::lemma_mul_mod_noop_left(x * SPREAD, inverse, m);
    vstd::arithmetic::div_mod::lemma_mul_mod_noop_left(y * SPREAD, inverse, m);
    assert((x * SPREAD * inverse) % m == (y * SPREAD * inverse) % m);
    assert(x * SPREAD * inverse == m * (x * 10771413168148108919) + x) by (nonlinear_arith)
        requires
            SPREAD * inverse == 10771413168148108919 * m + 1,
    ;
    assert(y * SPREAD * inverse == m * (y * 10771413168148108919) + y) by (nonlinear_arith)
        requires
            SPREAD * inverse == 10771413168148108919 * m + 1,
    ;
    vstd::arithmetic::div_mod::lemma_fundamental_div_mod_converse(
        x * SPREAD * inverse,
        m,
        x * 10771413168148108919,
        x as int,
    );
    vstd::arithmetic::div_mod::lemma_fundamental_div_mod_converse(
        y * SPREAD * inverse,
        m,
        y * 10771413168148108919,
        y as int,
    );
}

/// In one process, launches at different times or with different counters get
/// different identifiers.
pub proof fn identifiers_are_unique(pid: u64, nanos1: u64, seq1: u64, nanos2: u64, seq2: u64)
    requires
        uuid(nanos1, pid, seq1) == uuid(nanos2, pid, seq2),
    ensures
        nanos1 == nanos2,
        seq1 == seq2,
{
    let a1 = uuid_high(nanos1, pid);
    let a2 = uuid_high(nanos2, pid);
    let b1 = uuid_low(nanos1, seq1);
    let b2 = uuid_low(nanos2, seq2);
    lemma_groups(a1, b1);
    lemma_groups(a2, b2);
    assert(a1 == a2);
    assert(b1 == b2);
    let p = pid << 32;
    assert(nanos1 == nanos2) by (bit_vector)
        requires
            nanos1 ^ p == nanos2 ^ p,
    ;
    let r = (nanos1 << 17) | (nanos1 >> 47);
    let s1 = ((seq1 * SPREAD) % 0x1_0000_0000_0000_0000) as u64;
    let s2 = ((seq2 * SPREAD) % 0x1_0000_0000_0000_0000) as u64;
    assert(s1 == s2) by (bit_vector)
        requires
            r ^ s1 == r ^ s2,
    ;
    lemma_spread(seq1, seq2);
}

} // verus!
