//! RSSI-driven roaming decision engine (no I/O): RSSI samples and scan results in,
//! roam actions out.

use crate::persist::RadioConfig;
use vstd::prelude::*;

verus! {

/// Maximum number of neighbor-report candidates.
pub const MAX_NEIGHBORS: usize = 8;

/// A scanned or neighbor-report BSS candidate for roaming.
#[derive(Clone, Copy, PartialEq, Eq, Debug)]
pub struct BssCandidate {
    pub bssid: [u8; 6],
    pub channel: u8,
    pub rssi: i8,
}

/// Action returned by [`RoamEngine::on_sample`].
#[derive(Clone, Debug, PartialEq, Eq)]
pub enum RoamAction {
    /// Nothing to do.
    Idle,
    /// Scan for a better AP; `channels` is `None` for a full scan.
    Scan { channels: Option<Vec<u8>> },
    /// Roam to this BSSID.
    RoamTo { bssid: [u8; 6], channel: u8 },
}

/// Roaming state: weak samples in a row, last scan time, current BSSID, and the end of the
/// cooldown that follows a roam.
#[derive(Clone, Debug)]
pub struct RoamEngine {
    pub below_count: u8,
    pub last_scan_ms: u64,
    pub current_bssid: [u8; 6],
    pub cooldown_until_ms: u64,
}

fn bssid_eq(a: &[u8; 6], b: &[u8; 6]) -> (r: bool)
    ensures
        r == (a@ == b@),
{
    let mut i: usize = 0;
    while i < 6
        invariant
            i <= 6,
            a@.len() == 6,
            b@.len() == 6,
            forall|j: int| 0 <= j < i ==> a@[j] == b@[j],
        decreases 6 - i,
    {
        if a[i] != b[i] {
            return false;
        }
        i = i + 1;
    }
    assert(a@ =~= b@);
    true
}

/// Whether a candidate may be roamed to: another AP, at least `min_rssi` strong.
pub open spec fn eligible(c: BssCandidate, cur: Seq<u8>, min_rssi: int) -> bool {
    c.bssid@ != cur && c.rssi >= min_rssi
}

/// The strongest eligible candidate (the last one among equals).
pub open spec fn best(cs: Seq<BssCandidate>, cur: Seq<u8>, min_rssi: int) -> Option<BssCandidate>
    decreases cs.len(),
{
    if cs.len() == 0 {
        None
    } else {
        let b = best(cs.drop_last(), cur, min_rssi);
        let c = cs.last();
        if eligible(c, cur, min_rssi) {
            match b {
                Some(x) => if c.rssi >= x.rssi {
                    Some(c)
                } else {
                    Some(x)
                },
                None => Some(c),
            }
        } else {
            b
        }
    }
}

/// Roaming threshold adjusted by the hysteresis (as the signed byte it is added as).
pub open spec fn min_rssi(current_rssi: i8, cfg: RadioConfig) -> int {
    current_rssi + (cfg.roam_hysteresis_db as i8)
}

/// One RSSI sample: the engine after it, and whether a full scan is asked for (otherwise
/// the answer is `Idle`).
pub open spec fn sample_step(e: RoamEngine, rssi: i8, now_ms: u64, cfg: RadioConfig) -> (RoamEngine, bool) {
    let below = if e.below_count == 255 { 255u8 } else { (e.below_count + 1) as u8 };
    let gap = cfg.roam_scan_interval_s as int * 1000;
    let since = if now_ms >= e.last_scan_ms { now_ms - e.last_scan_ms } else { 0 };
    if !cfg.roam_enabled || rssi >= cfg.roam_rssi_threshold {
        (RoamEngine { below_count: 0, ..e }, false)
    } else if below < cfg.roam_debounce_samples || now_ms < e.cooldown_until_ms || since < gap {
        (RoamEngine { below_count: below, ..e }, false)
    } else {
        (RoamEngine { below_count: below, last_scan_ms: now_ms, ..e }, true)
    }
}

/// A sequence of `(rssi, time)` samples: the engine after them and, for each, whether it
/// asked for a scan.
pub open spec fn samples_run(e: RoamEngine, samples: Seq<(i8, u64)>, cfg: RadioConfig) -> (RoamEngine, Seq<bool>)
    decreases samples.len(),
{
    if samples.len() == 0 {
        (e, Seq::empty())
    } else {
        let (e1, scans) = samples_run(e, samples.drop_last(), cfg);
        let (e2, scan) = sample_step(e1, samples.last().0, samples.last().1, cfg);
        (e2, scans.push(scan))
    }
}

/// The engine after a successful roam to `new_bssid` at `now_ms`.
pub open spec fn roam_done_spec(e: RoamEngine, new_bssid: [u8; 6], now_ms: u64, cfg: RadioConfig) -> RoamEngine {
    RoamEngine {
        current_bssid: new_bssid,
        below_count: 0,
        cooldown_until_ms: if now_ms + cfg.roam_scan_interval_s as int * 2000 > u64::MAX {
            u64::MAX
        } else {
            (now_ms + cfg.roam_scan_interval_s as int * 2000) as u64
        },
        ..e
    }
}

impl RoamEngine {
    /// An engine attached to `current_bssid`, with no history.
    pub fn new(current_bssid: [u8; 6]) -> (e: RoamEngine)
        ensures
            e.below_count == 0,
            e.last_scan_ms == 0,
            e.current_bssid == current_bssid,
            e.cooldown_until_ms == 0,
    {
        RoamEngine { below_count: 0, last_scan_ms: 0, current_bssid, cooldown_until_ms: 0 }
    }

    /// Update the current BSSID after a successful association.
    pub fn set_current_bssid(&mut self, bssid: [u8; 6])
        ensures
            final(self).current_bssid == bssid,
            final(self).below_count == 0,
            final(self).last_scan_ms == old(self).last_scan_ms,
            final(self).cooldown_until_ms == old(self).cooldown_until_ms,
    {
        self.current_bssid = bssid;
        self.below_count = 0;
    }

    /// Feeds an RSSI sample. Roaming off or a strong sample resets the weak count. A weak
    /// sample counts; once `roam_debounce_samples` are counted, a full scan is asked for
    /// unless the post-roam cooldown runs or the last scan is less than
    /// `roam_scan_interval_s` ago.
    pub fn on_sample(&mut self, rssi: i8, now_ms: u64, cfg: &RadioConfig) -> (a: RoamAction)
        ensures
            ({
                let (e2, scan) = sample_step(*old(self), rssi, now_ms, *cfg);
                &&& *final(self) == e2
                &&& if scan { a matches RoamAction::Scan { channels } && channels is None } else { a is Idle }
            }),
            final(self).current_bssid == old(self).current_bssid,
            final(self).cooldown_until_ms == old(self).cooldown_until_ms,
            ({
                let below = if old(self).below_count == 255 { 255u8 } else { (old(self).below_count + 1) as u8 };
                let gap = cfg.roam_scan_interval_s as int * 1000;
                let since = if now_ms >= old(self).last_scan_ms { now_ms - old(self).last_scan_ms } else { 0 };
                if !cfg.roam_enabled || rssi >= cfg.roam_rssi_threshold {
                    &&& final(self).below_count == 0
                    &&& final(self).last_scan_ms == old(self).last_scan_ms
                    &&& a is Idle
                } else if below < cfg.roam_debounce_samples || now_ms < old(self).cooldown_until_ms || since < gap {
                    &&& final(self).below_count == below
                    &&& final(self).last_scan_ms == old(self).last_scan_ms
                    &&& a is Idle
                } else {
                    &&& final(self).below_count == below
                    &&& final(self).last_scan_ms == now_ms
                    &&& a matches RoamAction::Scan { channels } && channels is None
                }
            }),
    {
        if !cfg.roam_enabled {
            self.below_count = 0;
            return RoamAction::Idle;
        }
        if rssi >= cfg.roam_rssi_threshold {
            self.below_count = 0;
            return RoamAction::Idle;
        }
        self.below_count = if self.below_count == 255 {
            255
        } else {
            self.below_count + 1
        };
        if self.below_count < cfg.roam_debounce_samples {
            return RoamAction::Idle;
        }
        let min_scan_gap_ms: u64 = (cfg.roam_scan_interval_s as u64) * 1000;
        if now_ms < self.cooldown_until_ms {
            return RoamAction::Idle;
        }
        let since: u64 = if now_ms >= self.last_scan_ms {
            now_ms - self.last_scan_ms
        } else {
            0
        };
        if since < min_scan_gap_ms {
            return RoamAction::Idle;
        }
        self.last_scan_ms = now_ms;
        RoamAction::Scan { channels: None }
    }

    /// The strongest candidate that is another AP and beats `current_rssi` by the
    /// hysteresis; `None` when roaming is off or none qualifies.
    pub fn on_scan_results(&self, current_rssi: i8, candidates: &[BssCandidate], cfg: &RadioConfig) -> (r: Option<BssCandidate>)
        requires
            cfg.roam_enabled ==> -128 <= min_rssi(current_rssi, *cfg) <= 127,
        ensures
            r == (if cfg.roam_enabled {
                best(candidates@, self.current_bssid@, min_rssi(current_rssi, *cfg))
            } else {
                None
            }),
    {
        if !cfg.roam_enabled {
            return None;
        }
        let min_r: i8 = current_rssi + cfg.roam_hysteresis_db as i8;
        let mut pick: Option<BssCandidate> = None;
        let mut i: usize = 0;
        while i < candidates.len()
            invariant
                i <= candidates@.len(),
                min_r == min_rssi(current_rssi, *cfg),
                pick == best(candidates@.take(i as int), self.current_bssid@, min_r as int),
            decreases candidates@.len() - i,
        {
            let c = candidates[i];
            assert(candidates@.take(i + 1).drop_last() =~= candidates@.take(i as int));
            assert(candidates@.take(i + 1).last() == c);
            if !bssid_eq(&c.bssid, &self.current_bssid) && c.rssi >= min_r {
                pick = match pick {
                    Some(x) => if c.rssi >= x.rssi {
                        Some(c)
                    } else {
                        Some(x)
                    },
                    None => Some(c),
                };
            }
            i = i + 1;
        }
        assert(candidates@.take(i as int) =~= candidates@);
        pick
    }

    /// Marks a successful roam: new BSSID, and a cooldown of twice the scan interval.
    pub fn on_roam_done(&mut self, new_bssid: [u8; 6], now_ms: u64, cfg: &RadioConfig)
        ensures
            *final(self) == roam_done_spec(*old(self), new_bssid, now_ms, *cfg),
            final(self).current_bssid == new_bssid,
            final(self).below_count == 0,
            final(self).last_scan_ms == old(self).last_scan_ms,
            final(self).cooldown_until_ms == (if now_ms + cfg.roam_scan_interval_s as int * 2000 > u64::MAX {
                u64::MAX as int
            } else {
                now_ms + cfg.roam_scan_interval_s as int * 2000
            }),
    {
        self.set_current_bssid(new_bssid);
        let cooldown_ms: u64 = (cfg.roam_scan_interval_s as u64) * 2 * 1000;
        self.cooldown_until_ms = if now_ms > u64::MAX - cooldown_ms {
            u64::MAX
        } else {
            now_ms + cooldown_ms
        };
    }

    /// Candidates of an 802.11k neighbor report: 13-byte elements (BSSID, BSS info,
    /// operating class, channel, PHY type), at most [`MAX_NEIGHBORS`]; a trailing partial
    /// element is ignored. RSSI is left 0 for a follow-up scan.
    pub fn parse_neighbor_report(bytes: &[u8]) -> (r: Vec<BssCandidate>)
        ensures
            r@.len() == (if bytes@.len() / 13 < 8 { bytes@.len() / 13 } else { 8 }),
            forall|k: int| 0 <= k < r@.len() ==> {
                let c = #[trigger] r@[k];
                &&& c.bssid@ == bytes@.subrange(13 * k, 13 * k + 6)
                &&& c.channel == bytes@[13 * k + 11]
                &&& c.rssi == 0
            },
    {
        let mut out: Vec<BssCandidate> = Vec::new();
        let n = bytes.len();
        let mut i: usize = 0;
        while i <= n && n - i >= 13 && out.len() < MAX_NEIGHBORS
            invariant
                n == bytes@.len(),
                i == 13 * out@.len(),
                i <= n,
                out@.len() <= 8,
                forall|k: int| 0 <= k < out@.len() ==> {
                    let c = #[trigger] out@[k];
                    &&& c.bssid@ == bytes@.subrange(13 * k, 13 * k + 6)
                    &&& c.channel == bytes@[13 * k + 11]
                    &&& c.rssi == 0
                },
            decreases n - i,
        {
            let mut bssid: [u8; 6] = [0u8; 6];
            let mut j: usize = 0;
            while j < 6
                invariant
                    j <= 6,
                    i + 13 <= n,
                    n == bytes@.len(),
                    bssid@.len() == 6,
                    forall|t: int| 0 <= t < j ==> bssid@[t] == bytes@[i + t],
                decreases 6 - j,
            {
                bssid[j] = bytes[i + j];
                j = j + 1;
            }
            assert(bssid@ =~= bytes@.subrange(i as int, i + 6));
            out.push(BssCandidate { bssid, channel: bytes[i + 11], rssi: 0 });
            i = i + 13;
        }
        assert(out@.len() == 8 || n - i < 13);
        assert(out@.len() == (if n / 13 < 8 { n / 13 } else { 8 })) by (nonlinear_arith)
            requires
                i == 13 * out@.len(),
                i <= n,
                out@.len() <= 8,
                out@.len() == 8 || n - i < 13,
        ;
        out
    }
}

/// The scan pick is an eligible candidate at least as strong as every eligible one; no
/// pick means no candidate is eligible.
pub proof fn law_scan_pick_is_strongest(cs: Seq<BssCandidate>, cur: Seq<u8>, m: int)
    ensures
        match best(cs, cur, m) {
            Some(c) => cs.contains(c) && eligible(c, cur, m) && forall|i: int|
                0 <= i < cs.len() && eligible(cs[i], cur, m) ==> cs[i].rssi <= c.rssi,
            None => forall|i: int| 0 <= i < cs.len() ==> !eligible(#[trigger] cs[i], cur, m),
        },
    decreases cs.len(),
{
    if cs.len() > 0 {
        let d = cs.drop_last();
        law_scan_pick_is_strongest(d, cur, m);
        assert forall|i: int| 0 <= i < d.len() implies #[trigger] d[i] == cs[i] by {}
        match best(d, cur, m) {
            Some(x) => {
                assert(d.contains(x));
                let k = choose|k: int| 0 <= k < d.len() && d[k] == x;
                assert(cs[k] == x);
            },
            None => {},
        }
        assert(cs[cs.len() - 1] == cs.last());
        match best(cs, cur, m) {
            Some(c) => {
                assert forall|i: int| 0 <= i < cs.len() && eligible(cs[i], cur, m) implies cs[i].rssi <= c.rssi by {
                    if i < cs.len() - 1 {
                        assert(d[i] == cs[i]);
                    }
                }
                if c == cs.last() {
                    assert(cs.contains(c)) by {
                        assert(cs[cs.len() - 1] == c);
                    }
                }
            },
            None => {
                assert forall|i: int| 0 <= i < cs.len() implies !eligible(#[trigger] cs[i], cur, m) by {
                    if i < cs.len() - 1 {
                        assert(d[i] == cs[i]);
                    }
                }
            },
        }
    }
}

/// Samples never change the cooldown, so every sample taken before the cooldown ends
/// answers `Idle`.
proof fn lemma_samples_in_cooldown(e: RoamEngine, samples: Seq<(i8, u64)>, cfg: RadioConfig)
    requires
        forall|k: int| 0 <= k < samples.len() ==> (#[trigger] samples[k]).1 < e.cooldown_until_ms,
    ensures
        samples_run(e, samples, cfg).0.cooldown_until_ms == e.cooldown_until_ms,
        samples_run(e, samples, cfg).0.current_bssid == e.current_bssid,
        samples_run(e, samples, cfg).1.len() == samples.len(),
        forall|k: int| 0 <= k < samples.len() ==> !(#[trigger] samples_run(e, samples, cfg).1[k]),
    decreases samples.len(),
{
    if samples.len() > 0 {
        let init = samples.drop_last();
        assert forall|k: int| 0 <= k < init.len() implies (#[trigger] init[k]).1 < e.cooldown_until_ms by {
            assert(init[k] == samples[k]);
        }
        lemma_samples_in_cooldown(e, init, cfg);
        assert(samples.last() == samples[samples.len() - 1]);
    }
}

/// After a roam, the engine is on the new BSSID with no weak samples counted, and every
/// sample taken before twice the scan interval has passed (`now_ms` plus that time,
/// saturating at `u64::MAX`) answers `Idle`.
pub proof fn law_roam_cooldown(e: RoamEngine, new_bssid: [u8; 6], now_ms: u64, cfg: RadioConfig, samples: Seq<(i8, u64)>)
    requires
        forall|k: int| 0 <= k < samples.len() ==> (#[trigger] samples[k]).1 < (if now_ms + cfg.roam_scan_interval_s as int * 2000 > u64::MAX {
            u64::MAX as int
        } else {
            now_ms + cfg.roam_scan_interval_s as int * 2000
        }),
    ensures
        roam_done_spec(e, new_bssid, now_ms, cfg).current_bssid == new_bssid,
        roam_done_spec(e, new_bssid, now_ms, cfg).below_count == 0,
        forall|k: int| 0 <= k < samples.len() ==> !(#[trigger] samples_run(roam_done_spec(e, new_bssid, now_ms, cfg), samples, cfg).1[k]),
{
    let e1 = roam_done_spec(e, new_bssid, now_ms, cfg);
    lemma_samples_in_cooldown(e1, samples, cfg);
}

} // verus!
