//! One detector instance: configuration, the detection pipeline from raw
//! model rows to kept candidates, and the moderation decisions taken on
//! the results.
//!
//! Two modes exist on purpose.  Annotation mode decodes rows, filters by
//! the detection floor, orders by confidence and suppresses overlaps, and
//! reports the best confidence among the boxes actually drawn.
//! Classification mode skips all of that and takes the best raw score of
//! the primary (first) class across every row.

use vstd::prelude::*;

use crate::detect::CONF_ONE;
use crate::detect::Candidate;
use crate::detect::DIM_LIMIT;
use crate::detect::RawRow;
use crate::detect::decode_rows;
use crate::detect::spec_decode_row;
use crate::detect::spec_decode_rows;
use crate::geometry::BBox;
use crate::nms::lemma_sort_desc_len;
use crate::nms::lemma_sort_desc_members;
use crate::nms::run_nms;
use crate::nms::sort_desc;
use crate::nms::spec_nms;
use crate::nms::spec_sort_desc;
use crate::policy::ActivityLog;
use crate::policy::Whitelist;
use crate::policy::spec_ban_due;
use crate::policy::spec_moderated;

verus! {

/// Immutable per-detector configuration.  `trigger` is the fixed-point
/// confidence at or above which a detection counts as a hit.
pub struct ModerationConfig {
    pub trigger: u32,
    pub start_cmd: String,
    pub start_msg: String,
    pub stop_cmd: String,
    pub stop_msg: String,
    pub reply_output_img_cmd: String,
    pub reply_msg: String,
    pub my_times_cmd: String,
    pub is_reply_trigger: bool,
    pub is_delete_message: bool,
    pub ban_cooldown: u64,
    pub ban_duration: u64,
    pub ban_msg: String,
}

impl ModerationConfig {
    pub open spec fn wf(self) -> bool {
        self.trigger <= CONF_ONE
    }
}

/// The full annotation-mode pipeline on one raw output tensor: decode and
/// floor-filter every row, order by descending confidence (ties keep row
/// order), then greedily suppress overlaps.
pub open spec fn spec_detections(rows: Seq<RawRow>, w: u32, h: u32) -> Seq<Candidate> {
    spec_nms(spec_sort_desc(spec_decode_rows(rows, w, h)))
}

/// Law: detection is deterministic — identical raw output lists, with
/// whatever tie confidences, yield the same kept candidates in the same
/// order.
pub proof fn lemma_detections_deterministic(a: Seq<RawRow>, b: Seq<RawRow>, w: u32, h: u32)
    requires
        a == b,
    ensures
        spec_detections(a, w, h) == spec_detections(b, w, h),
{
}

/// Runs the annotation-mode pipeline.
pub fn detect_objects(rows: &Vec<RawRow>, w: u32, h: u32) -> (r: Vec<Candidate>)
    requires
        forall|i: int| 0 <= i < rows.len() ==> (#[trigger] rows@[i]).wf(),
        1 <= w <= DIM_LIMIT,
        1 <= h <= DIM_LIMIT,
    ensures
        r@ == spec_detections(rows@, w, h),
        forall|i: int| 0 <= i < r.len() ==> (#[trigger] r@[i]).wf(),
{
    let decoded = decode_rows(rows, w, h);
    let sorted = sort_desc(&decoded);
    proof {
        lemma_sort_desc_len(decoded@);
        assert forall|k: int| 0 <= k < sorted@.len() implies (#[trigger] sorted@[k]).wf() by {
            lemma_sort_desc_members(decoded@, k);
        }
    }
    run_nms(sorted)
}

/// Candidates that get a box drawn: every kept candidate whose label is
/// not the benign one.
pub open spec fn spec_drawn(s: Seq<Candidate>, benign: Option<usize>) -> Seq<Candidate>
    decreases s.len(),
{
    if s.len() == 0 {
        Seq::empty()
    } else {
        let prev = spec_drawn(s.drop_last(), benign);
        if benign == Some(s.last().label) {
            prev
        } else {
            prev.push(s.last())
        }
    }
}

/// Best confidence in a candidate list; zero when the list is empty.
pub open spec fn spec_peak_conf(s: Seq<Candidate>) -> u32
    decreases s.len(),
{
    if s.len() == 0 {
        0u32
    } else {
        let prev = spec_peak_conf(s.drop_last());
        if s.last().conf > prev {
            s.last().conf
        } else {
            prev
        }
    }
}

/// Filters the kept candidates down to the ones worth drawing.
pub fn select_drawn(kept: &Vec<Candidate>, benign_label: Option<usize>) -> (r: Vec<Candidate>)
    ensures
        r@ == spec_drawn(kept@, benign_label),
{
    let mut out: Vec<Candidate> = Vec::new();
    let mut i: usize = 0;
    while i < kept.len()
        invariant
            0 <= i <= kept.len(),
            out@ == spec_drawn(kept@.subrange(0, i as int), benign_label),
        decreases kept.len() - i,
    {
        assert(kept@.subrange(0, i + 1 as int).drop_last() =~= kept@.subrange(0, i as int));
        assert(kept@.subrange(0, i + 1 as int).last() == kept@[i as int]);
        let labelled_benign = match benign_label {
            Some(b) => b == kept[i].label,
            None => false,
        };
        if !labelled_benign {
            out.push(kept[i]);
        }
        i = i + 1;
    }
    assert(kept@.subrange(0, kept@.len() as int) =~= kept@);
    out
}

/// Best confidence among the given candidates — the value annotation mode
/// reports for the boxes actually drawn.
pub fn peak_confidence(drawn: &Vec<Candidate>) -> (r: u32)
    ensures
        r == spec_peak_conf(drawn@),
{
    let mut best: u32 = 0;
    let mut i: usize = 0;
    while i < drawn.len()
        invariant
            0 <= i <= drawn.len(),
            best == spec_peak_conf(drawn@.subrange(0, i as int)),
        decreases drawn.len() - i,
    {
        assert(drawn@.subrange(0, i + 1 as int).drop_last() =~= drawn@.subrange(0, i as int));
        assert(drawn@.subrange(0, i + 1 as int).last() == drawn@[i as int]);
        if drawn[i].conf > best {
            best = drawn[i].conf;
        }
        i = i + 1;
    }
    assert(drawn@.subrange(0, drawn@.len() as int) =~= drawn@);
    best
}

/// Classification mode: the best raw score of the primary (first) class
/// across every row, ignoring the floor and the suppression pass.
pub open spec fn spec_primary_peak(rows: Seq<RawRow>) -> u32
    decreases rows.len(),
{
    if rows.len() == 0 {
        0u32
    } else {
        let prev = spec_primary_peak(rows.drop_last());
        if rows.last().scores@[0] > prev {
            rows.last().scores@[0]
        } else {
            prev
        }
    }
}

/// Scores a raw output tensor in classification mode.
pub fn classify_rows(rows: &Vec<RawRow>) -> (r: u32)
    requires
        forall|i: int| 0 <= i < rows.len() ==> (#[trigger] rows@[i]).wf(),
    ensures
        r == spec_primary_peak(rows@),
{
    let mut best: u32 = 0;
    let mut i: usize = 0;
    while i < rows.len()
        invariant
            0 <= i <= rows.len(),
            forall|j: int| 0 <= j < rows.len() ==> (#[trigger] rows@[j]).wf(),
            best == spec_primary_peak(rows@.subrange(0, i as int)),
        decreases rows.len() - i,
    {
        assert(rows@.subrange(0, i + 1 as int).drop_last() =~= rows@.subrange(0, i as int));
        assert(rows@.subrange(0, i + 1 as int).last() == rows@[i as int]);
        let score = rows[i].scores[0];
        if score > best {
            best = score;
        }
        i = i + 1;
    }
    assert(rows@.subrange(0, rows@.len() as int) =~= rows@);
    best
}

pub open spec fn spec_clamp(v: int, hi: int) -> int {
    if v < 0 {
        0
    } else if v > hi {
        hi
    } else {
        v
    }
}

/// A box clamped into an image of `w` by `h` pixels (edges in
/// thousandths of a pixel).
pub open spec fn spec_clamp_box(b: BBox, w: u32, h: u32) -> BBox {
    BBox {
        x1: spec_clamp(b.x1 as int, 1000 * w) as i64,
        y1: spec_clamp(b.y1 as int, 1000 * h) as i64,
        x2: spec_clamp(b.x2 as int, 1000 * w) as i64,
        y2: spec_clamp(b.y2 as int, 1000 * h) as i64,
    }
}

fn clamp_component(v: i64, hi: i64) -> (r: i64)
    requires
        hi >= 0,
    ensures
        r == spec_clamp(v as int, hi as int),
{
    if v < 0 {
        0
    } else if v > hi {
        hi
    } else {
        v
    }
}

/// Clamps a detection box into the image it belongs to.
pub fn clamp_box(b: &BBox, w: u32, h: u32) -> (r: BBox)
    requires
        b.wf(),
        1 <= w <= DIM_LIMIT,
        1 <= h <= DIM_LIMIT,
    ensures
        r == spec_clamp_box(*b, w, h),
        0 <= r.x1 <= r.x2 <= 1000 * w,
        0 <= r.y1 <= r.y2 <= 1000 * h,
{
    let wm = 1000 * (w as i64);
    let hm = 1000 * (h as i64);
    BBox {
        x1: clamp_component(b.x1, wm),
        y1: clamp_component(b.y1, hm),
        x2: clamp_component(b.x2, wm),
        y2: clamp_component(b.y2, hm),
    }
}

/// Law: a box decoded from any raw row, rescaled to a `w` by `h` image
/// and clamped, has ordered edges inside the image on both axes.
pub proof fn lemma_coordinate_round_trip(row: RawRow, w: u32, h: u32)
    requires
        row.wf(),
        1 <= w <= DIM_LIMIT,
        1 <= h <= DIM_LIMIT,
    ensures
        match spec_decode_row(row, w, h) {
            Some(c) => {
                let r = spec_clamp_box(c.bbox, w, h);
                &&& 0 <= r.x1 <= r.x2 <= 1000 * w
                &&& 0 <= r.y1 <= r.y2 <= 1000 * h
            },
            None => true,
        },
{
    crate::detect::lemma_rescale_box_wf(row, w, h);
}

/// What an admin start/stop command did to the whitelist.
#[derive(Clone, Copy, Debug, PartialEq, Eq, Structural)]
pub enum AdminOutcome {
    /// No command matched, or the message was not from a group.
    Ignored,
    /// Moderation switched on for the group.
    Started,
    /// Moderation switched off for the group.
    Stopped,
}

/// Answer to the usage enquiry command.
#[derive(Clone, Copy, Debug, PartialEq, Eq, Structural)]
pub enum UsageReply {
    /// Not a group message, or not the enquiry command.
    NotApplicable,
    /// The user never triggered this detector.
    NoRecord,
    /// The user's count in this group and overall.
    Times { group_times: u64, total_times: u64 },
}

/// One detector instance: its configuration, which label is benign
/// background (never drawn), and the moderation state it owns.
pub struct Detector {
    pub config: ModerationConfig,
    pub benign_label: Option<usize>,
    pub whitelist: Whitelist,
    pub activity: ActivityLog,
}

impl Detector {
    pub fn new(
        config: ModerationConfig,
        benign_label: Option<usize>,
        whitelist: Whitelist,
        activity: ActivityLog,
    ) -> (r: Self)
        ensures
            r.config == config,
            r.benign_label == benign_label,
            r.whitelist == whitelist,
            r.activity == activity,
    {
        Detector { config, benign_label, whitelist, activity }
    }

    /// Whether this detector moderates the group at all.
    pub fn is_moderated(&self, group_id: i64) -> (r: bool)
        ensures
            r == spec_moderated(self.whitelist.groups(), group_id),
    {
        self.whitelist.is_moderated(group_id)
    }

    /// A confidence counts as a hit at or above the configured trigger
    /// threshold — the comparison is inclusive.
    pub fn triggered(&self, conf: u32) -> (r: bool)
        ensures
            r == (conf >= self.config.trigger),
    {
        conf >= self.config.trigger
    }

    /// Whether any image of a batch scored at or above the trigger.
    pub fn any_triggered(&self, confs: &Vec<u32>) -> (r: bool)
        ensures
            r == exists|i: int| 0 <= i < confs.len() && #[trigger] confs@[i] >= self.config.trigger,
    {
        let mut i: usize = 0;
        while i < confs.len()
            invariant
                0 <= i <= confs.len(),
                forall|j: int| 0 <= j < i ==> !(#[trigger] confs@[j] >= self.config.trigger),
            decreases confs.len() - i,
        {
            if confs[i] >= self.config.trigger {
                return true;
            }
            i = i + 1;
        }
        false
    }

    /// Applies an exact admin start or stop command to the whitelist.
    /// Outside a group, or with any other text, nothing changes.  A text
    /// equal to both commands acts as the start command.
    pub fn handle_admin_command(&mut self, text: &String, group_id: Option<i64>) -> (r:
        AdminOutcome)
        ensures
            final(self).config == old(self).config,
            final(self).benign_label == old(self).benign_label,
            final(self).activity == old(self).activity,
            match group_id {
                Some(g) => {
                    if text@ == old(self).config.start_cmd@ {
                        &&& r == AdminOutcome::Started
                        &&& final(self).whitelist.groups() == old(self).whitelist.groups().insert(
                            g,
                            true,
                        )
                    } else if text@ == old(self).config.stop_cmd@ {
                        &&& r == AdminOutcome::Stopped
                        &&& final(self).whitelist.groups() == old(self).whitelist.groups().insert(
                            g,
                            false,
                        )
                    } else {
                        &&& r == AdminOutcome::Ignored
                        &&& final(self).whitelist == old(self).whitelist
                    }
                },
                None => r == AdminOutcome::Ignored && final(self).whitelist == old(self).whitelist,
            },
    {
        let group_id = match group_id {
            Some(g) => g,
            None => {
                return AdminOutcome::Ignored;
            },
        };
        if *text == self.config.start_cmd {
            self.whitelist.set(group_id, true);
            AdminOutcome::Started
        } else if *text == self.config.stop_cmd {
            self.whitelist.set(group_id, false);
            AdminOutcome::Stopped
        } else {
            AdminOutcome::Ignored
        }
    }

    /// Answers the usage enquiry: inside a group, when the text is
    /// exactly the enquiry command, reports the user's counts.
    pub fn my_times(&self, text: &String, group_id: Option<i64>, user_id: i64) -> (r: UsageReply)
        ensures
            match group_id {
                Some(g) => {
                    if text@ == self.config.my_times_cmd@ {
                        if self.activity.records().contains_key(user_id) {
                            r == (UsageReply::Times {
                                group_times: self.activity.user_group_times(user_id, g),
                                total_times: self.activity.user_total(user_id),
                            })
                        } else {
                            r == UsageReply::NoRecord
                        }
                    } else {
                        r == UsageReply::NotApplicable
                    }
                },
                None => r == UsageReply::NotApplicable,
            },
    {
        let group_id = match group_id {
            Some(g) => g,
            None => {
                return UsageReply::NotApplicable;
            },
        };
        if *text != self.config.my_times_cmd {
            return UsageReply::NotApplicable;
        }
        match self.activity.my_times(user_id, group_id) {
            Some((group_times, total_times)) => UsageReply::Times { group_times, total_times },
            None => UsageReply::NoRecord,
        }
    }

    /// Applies one confirmed trigger to the user's record and decides the
    /// ban by this detector's cooldown window.
    pub fn police_trigger(&mut self, user_id: i64, group_id: i64, now: u64) -> (banned: bool)
        requires
            now >= old(self).activity.user_last_trigger(user_id, group_id),
            old(self).activity.user_total(user_id) < u64::MAX,
            old(self).activity.user_group_times(user_id, group_id) < u64::MAX,
        ensures
            banned == spec_ban_due(
                old(self).activity.user_last_trigger(user_id, group_id),
                now,
                old(self).config.ban_cooldown,
            ),
            final(self).config == old(self).config,
            final(self).benign_label == old(self).benign_label,
            final(self).whitelist == old(self).whitelist,
            final(self).activity.user_total(user_id) == old(self).activity.user_total(user_id) + 1,
            final(self).activity.user_group_times(user_id, group_id) == old(
                self,
            ).activity.user_group_times(user_id, group_id) + 1,
            final(self).activity.user_last_trigger(user_id, group_id) == now,
    {
        self.activity.record_trigger(user_id, group_id, now, self.config.ban_cooldown)
    }

    /// Timestamp of the user's last trigger in a group, for callers that
    /// must check clock monotonicity before policing.
    pub fn last_trigger(&self, user_id: i64, group_id: i64) -> (r: u64)
        ensures
            r == self.activity.user_last_trigger(user_id, group_id),
    {
        self.activity.last_trigger(user_id, group_id)
    }
}

/// Gate for the admin check command.  It proceeds only when the text
/// equals the check command of both detector instances at once, so with
/// differing command strings it never fires — a deliberate quirk of the
/// specified behaviour.
pub fn check_command_applies(text: &String, first_cmd: &String, second_cmd: &String) -> (r: bool)
    ensures
        r == (text@ == first_cmd@ && text@ == second_cmd@),
{
    *text == *first_cmd && *text == *second_cmd
}

/// Gate for ordinary messages: a text equal to either detector's check
/// command is left to the check handler and skipped here.
pub fn normal_message_skipped(text: &String, first_cmd: &String, second_cmd: &String) -> (r: bool)
    ensures
        r == (text@ == first_cmd@ || text@ == second_cmd@),
{
    *text == *first_cmd || *text == *second_cmd
}

} // verus!
