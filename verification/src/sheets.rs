//! The export sheet and the match setup sheet: what they show, and what they
//! are read back as.

use vstd::prelude::*;

use crate::command::Command;
use crate::export_job::ExportTargetRow;
use crate::format::format_hms;
use crate::match_panel;
use crate::match_panel::{hex, parse_hex, parse_minutes, parse_overtime_periods, parse_periods};
use crate::plan::ExportTarget;
use crate::project::{Project, Quality, Resolution};
use crate::scoreboard_config::{MatchFormat, Rgba, ScoreboardConfig, TeamConfig};
use crate::text;
use crate::time::TICKS_PER_FRAME;

verus! {

// ---------------------------------------------------------------------------
// The export sheet.

/// One row of the export sheet.
#[derive(Debug, PartialEq, Eq)]
pub struct TargetRow {
    pub label: String,
    /// `"3 clips · 1:02"`.
    pub detail: String,
    pub ticked: bool,
}

/// What a [`TargetRow`] shows, as mathematical values.
#[verifier::ext_equal]
pub struct TargetRowView {
    pub label: Seq<char>,
    pub detail: Seq<char>,
    pub ticked: bool,
}

impl View for TargetRow {
    type V = TargetRowView;

    open spec fn view(&self) -> TargetRowView {
        TargetRowView { label: self.label@, detail: self.detail@, ticked: self.ticked }
    }
}

/// What a row says of its target: what it counts, and how long it runs.
pub open spec fn detail_of(row: ExportTargetRow) -> Seq<char> {
    text::decimal(row.count as nat) + " "@ + row.unit@ + (if row.count == 1 {
        ""@
    } else {
        "s"@
    }) + " · "@ + crate::format::hms(row.frames * TICKS_PER_FRAME)
}

/// The row of a target the project offers. The clip's own row is the one that
/// differs: it is ticked when the sheet was opened on it, and only then.
pub open spec fn row_of(row: ExportTargetRow, only_clip: bool) -> TargetRowView {
    TargetRowView {
        label: row.label@,
        detail: detail_of(row),
        ticked: (row.target is Clip) == only_clip,
    }
}

/// What each row of the sheet shows.
pub open spec fn row_views(rows: Seq<TargetRow>) -> Seq<TargetRowView> {
    rows.map_values(|r: TargetRow| r@)
}

/// The place of a resolution in the sheet's picker. 2160p is kept in the
/// format but not offered, so it shows as 1080p.
pub open spec fn resolution_place(resolution: Resolution) -> i32 {
    match resolution {
        Resolution::R720 => 0,
        _ => 1,
    }
}

/// The resolution at a place in the sheet's picker.
pub open spec fn resolution_at(place: i32) -> Resolution {
    if place == 0 {
        Resolution::R720
    } else {
        Resolution::R1080
    }
}

/// The place of a quality in the sheet's picker.
pub open spec fn quality_place(quality: Quality) -> i32 {
    match quality {
        Quality::Low => 0,
        Quality::Medium => 1,
        Quality::High => 2,
    }
}

/// The quality at a place in the sheet's picker.
pub open spec fn quality_at(place: i32) -> Quality {
    if place == 0 {
        Quality::Low
    } else if place == 2 {
        Quality::High
    } else {
        Quality::Medium
    }
}

/// **The pickers start at the last choice**: what they show for a project is
/// what a run started there saves, but for 2160p, which it saves as 1080p.
pub proof fn law_the_pickers_show_what_they_save(resolution: Resolution, quality: Quality)
    ensures
        resolution != Resolution::R2160 ==> resolution_at(resolution_place(resolution))
            == resolution,
        resolution_at(resolution_place(Resolution::R2160)) == Resolution::R1080,
        quality_at(quality_place(quality)) == quality,
{
}

/// The export sheet: the rows it shows and the targets a tick means, in the
/// same order.
#[derive(Debug, PartialEq, Eq)]
pub struct ExportSheet {
    pub rows: Vec<TargetRow>,
    pub targets: Vec<ExportTarget>,
    /// The place in the resolution picker.
    pub resolution: i32,
    /// The place in the quality picker.
    pub quality: i32,
}

/// The targets whose rows are ticked. Rows and targets are paired from the
/// front; what the longer list has over goes unheard.
pub open spec fn ticked_of(rows: Seq<TargetRowView>, targets: Seq<ExportTarget>) -> Seq<
    ExportTarget,
>
    decreases rows.len() + targets.len(),
{
    if rows.len() == 0 || targets.len() == 0 {
        seq![]
    } else if rows.len() > targets.len() {
        ticked_of(rows.drop_last(), targets)
    } else if rows.len() < targets.len() {
        ticked_of(rows, targets.drop_last())
    } else {
        let before = ticked_of(rows.drop_last(), targets.drop_last());
        if rows.last().ticked {
            before.push(targets.last())
        } else {
            before
        }
    }
}

proof fn lemma_ticked_of_pairs(rows: Seq<TargetRowView>, targets: Seq<ExportTarget>, n: int)
    requires
        n == if rows.len() < targets.len() {
            rows.len() as int
        } else {
            targets.len() as int
        },
    ensures
        ticked_of(rows, targets) == ticked_of(rows.take(n), targets.take(n)),
    decreases rows.len() + targets.len(),
{
    if rows.len() > targets.len() {
        if n > 0 {
            lemma_ticked_of_pairs(rows.drop_last(), targets, n);
            assert(rows.drop_last().take(n) =~= rows.take(n));
        }
    } else if rows.len() < targets.len() {
        if n > 0 {
            lemma_ticked_of_pairs(rows, targets.drop_last(), n);
            assert(targets.drop_last().take(n) =~= targets.take(n));
        }
    } else {
        assert(rows.take(n) =~= rows);
        assert(targets.take(n) =~= targets);
    }
}

fn detail(row: &ExportTargetRow) -> (shown: String)
    ensures
        shown@ == detail_of(*row),
{
    let mut shown = String::new();
    text::push_decimal(&mut shown, row.count as u64);
    shown.append(" ");
    shown.append(row.unit);
    proof {
        reveal_strlit("");
    }
    if row.count != 1 {
        shown.append("s");
    }
    shown.append(" · ");
    let length = format_hms(row.frames as i128 * 100_000_000);
    shown.append(length.as_str());
    assert(shown@ =~= detail_of(*row));
    shown
}

/// Opens the export sheet over the targets a project offers: with the clip's
/// own row ticked (`only_clip`) or everything but it, and the pickers at the
/// project's last choice.
pub fn open_export_sheet(project: &Project, offered: Vec<ExportTargetRow>, only_clip: bool) -> (sheet:
    ExportSheet)
    ensures
        row_views(sheet.rows@) == offered@.map_values(|r: ExportTargetRow| row_of(r, only_clip)),
        sheet.targets@ == offered@.map_values(|r: ExportTargetRow| r.target),
        sheet.resolution == resolution_place(project.preferences.last_export_resolution),
        sheet.quality == quality_place(project.preferences.last_export_quality),
{
    let mut rows: Vec<TargetRow> = Vec::new();
    let mut targets: Vec<ExportTarget> = Vec::new();
    let ghost all_rows = offered@.map_values(|r: ExportTargetRow| row_of(r, only_clip));
    let ghost all_targets = offered@.map_values(|r: ExportTargetRow| r.target);
    assert(row_views(rows@) =~= all_rows.take(0));
    assert(targets@ =~= all_targets.take(0));
    for i in 0..offered.len()
        invariant
            all_rows == offered@.map_values(|r: ExportTargetRow| row_of(r, only_clip)),
            all_targets == offered@.map_values(|r: ExportTargetRow| r.target),
            row_views(rows@) == all_rows.take(i as int),
            targets@ == all_targets.take(i as int),
    {
        let ghost before = row_views(rows@);
        let offer = &offered[i];
        let is_clip = matches!(offer.target, ExportTarget::Clip(_));
        let row = TargetRow {
            label: offer.label.clone(),
            detail: detail(offer),
            ticked: is_clip == only_clip,
        };
        let ghost view = row@;
        rows.push(row);
        targets.push(offer.target.clone());
        proof {
            assert(view =~= all_rows[i as int]);
            assert(row_views(rows@) =~= before.push(view));
            assert(all_rows.take(i + 1) =~= all_rows.take(i as int).push(all_rows[i as int]));
            assert(all_targets.take(i + 1) =~= all_targets.take(i as int).push(
                all_targets[i as int],
            ));
        }
    }
    assert(all_rows.take(all_rows.len() as int) =~= all_rows);
    assert(all_targets.take(all_targets.len() as int) =~= all_targets);
    ExportSheet {
        rows,
        targets,
        resolution: match project.preferences.last_export_resolution {
            Resolution::R720 => 0,
            _ => 1,
        },
        quality: match project.preferences.last_export_quality {
            Quality::Low => 0,
            Quality::Medium => 1,
            Quality::High => 2,
        },
    }
}

impl ExportSheet {
    /// Ticks or clears a row. One that isn't there changes nothing.
    pub fn tick_target(&mut self, index: i32, ticked: bool)
        ensures
            ({
                let rows = row_views(old(self).rows@);
                row_views(final(self).rows@) == if 0 <= index < rows.len() {
                    rows.update(index as int, (TargetRowView { ticked, ..rows[index as int] }))
                } else {
                    rows
                }
            }),
            final(self).targets == old(self).targets,
            final(self).resolution == old(self).resolution,
            final(self).quality == old(self).quality,
    {
        let ghost rows = row_views(self.rows@);
        if index >= 0 && (index as usize) < self.rows.len() {
            let i: usize = index as usize;
            self.rows[i].ticked = ticked;
            assert(self.rows@[i as int]@ =~= TargetRowView { ticked, ..rows[i as int] });
            assert(row_views(self.rows@) =~= rows.update(
                index as int,
                TargetRowView { ticked, ..rows[index as int] },
            ));
        }
    }

    /// Whether any row is ticked, so that there is something to export.
    pub fn any_ticked(&self) -> (any: bool)
        ensures
            any == exists|i: int| 0 <= i < self.rows@.len() && (#[trigger] self.rows@[i]).ticked,
    {
        for i in 0..self.rows.len()
            invariant
                forall|k: int| 0 <= k < i ==> !(#[trigger] self.rows@[k]).ticked,
        {
            if self.rows[i].ticked {
                return true;
            }
        }
        false
    }

    /// The export that the sheet asks for: every ticked target, at the pickers'
    /// choice. Rows and targets are paired from the front.
    pub fn start_export(&self, resolution: i32, quality: i32) -> (command: Command)
        ensures
            command matches Command::Export { targets, resolution: r, quality: q } && targets@
                == ticked_of(row_views(self.rows@), self.targets@) && r == resolution_at(
                resolution,
            ) && q == quality_at(quality),
    {
        let ghost all = row_views(self.rows@);
        let mut targets: Vec<ExportTarget> = Vec::new();
        assert(targets@ =~= ticked_of(all.take(0), self.targets@.take(0)));
        let paired: usize = if self.rows.len() < self.targets.len() {
            self.rows.len()
        } else {
            self.targets.len()
        };
        for i in 0..paired
            invariant
                paired <= self.rows@.len(),
                paired <= self.targets@.len(),
                all == row_views(self.rows@),
                targets@ == ticked_of(all.take(i as int), self.targets@.take(i as int)),
        {
            proof {
                assert(all.take(i + 1).drop_last() =~= all.take(i as int));
                assert(self.targets@.take(i + 1).drop_last() =~= self.targets@.take(i as int));
                assert(all.take(i + 1).last() == self.rows@[i as int]@);
            }
            if self.rows[i].ticked {
                targets.push(self.targets[i].clone());
            }
        }
        proof {
            lemma_ticked_of_pairs(all, self.targets@, paired as int);
        }
        Command::Export {
            targets,
            resolution: match resolution {
                0 => Resolution::R720,
                _ => Resolution::R1080,
            },
            quality: match quality {
                0 => Quality::Low,
                2 => Quality::High,
                _ => Quality::Medium,
            },
        }
    }
}

/// **A tick is one row's**: ticking a row decides whether its own target is
/// exported, and no other's. A row without a target decides nothing.
pub proof fn law_a_tick_is_one_row_s(
    rows: Seq<TargetRowView>,
    targets: Seq<ExportTarget>,
    index: int,
    ticked: bool,
)
    requires
        0 <= index < rows.len(),
    ensures
        ({
            let after = rows.update(index, (TargetRowView { ticked, ..rows[index] }));
            if index < targets.len() {
                let before_it = ticked_of(rows.take(index), targets.take(index));
                let own: Seq<ExportTarget> = if ticked {
                    seq![targets[index]]
                } else {
                    seq![]
                };
                ticked_of(after, targets) == before_it + own + ticked_of(
                    rows.skip(index + 1),
                    targets.skip(index + 1),
                )
            } else {
                ticked_of(after, targets) == ticked_of(rows, targets)
            }
        }),
{
    let after = rows.update(index, TargetRowView { ticked, ..rows[index] });
    let n = if rows.len() < targets.len() {
        rows.len() as int
    } else {
        targets.len() as int
    };
    lemma_ticked_of_pairs(after, targets, n);
    lemma_ticked_of_pairs(rows, targets, n);
    if index < targets.len() {
        let paired = rows.take(n);
        let paired_targets = targets.take(n);
        lemma_a_paired_tick(paired, paired_targets, index, ticked);
        assert(after.take(n) =~= paired.update(
            index,
            TargetRowView { ticked, ..paired[index] },
        ));
        assert(paired.take(index) =~= rows.take(index));
        assert(paired_targets.take(index) =~= targets.take(index));
        let rest = rows.skip(index + 1);
        let rest_targets = targets.skip(index + 1);
        lemma_ticked_of_pairs(rest, rest_targets, n - index - 1);
        assert(rest.take(n - index - 1) =~= paired.skip(index + 1));
        assert(rest_targets.take(n - index - 1) =~= paired_targets.skip(index + 1));
    } else {
        assert(after.take(n) =~= rows.take(n));
    }
}

proof fn lemma_a_paired_tick(
    rows: Seq<TargetRowView>,
    targets: Seq<ExportTarget>,
    index: int,
    ticked: bool,
)
    requires
        rows.len() == targets.len(),
        0 <= index < rows.len(),
    ensures
        ({
            let after = rows.update(index, (TargetRowView { ticked, ..rows[index] }));
            let before_it = ticked_of(rows.take(index), targets.take(index));
            let own: Seq<ExportTarget> = if ticked {
                seq![targets[index]]
            } else {
                seq![]
            };
            ticked_of(after, targets) == before_it + own + ticked_of(
                rows.skip(index + 1),
                targets.skip(index + 1),
            )
        }),
{
    let after = rows.update(index, TargetRowView { ticked, ..rows[index] });
    lemma_ticked_splits(after, targets, index);
    assert(after.take(index) =~= rows.take(index));
    let tail = after.skip(index);
    let tail_targets = targets.skip(index);
    lemma_ticked_splits(tail, tail_targets, 1);
    assert(tail.skip(1) =~= rows.skip(index + 1));
    assert(tail_targets.skip(1) =~= targets.skip(index + 1));
    let one = tail.take(1);
    let one_target = tail_targets.take(1);
    assert(one.drop_last() =~= seq![]);
    assert(one.last() == after[index]);
    assert(one_target.last() == targets[index]);
    assert(ticked_of(one.drop_last(), one_target.drop_last()) =~= seq![]);
    let own: Seq<ExportTarget> = if ticked {
        seq![targets[index]]
    } else {
        seq![]
    };
    assert(ticked_of(one, one_target) =~= own);
    let head = ticked_of(rows.take(index), targets.take(index));
    let rest = ticked_of(rows.skip(index + 1), targets.skip(index + 1));
    assert(head + (own + rest) =~= head + own + rest);
}

proof fn lemma_ticked_splits(rows: Seq<TargetRowView>, targets: Seq<ExportTarget>, at: int)
    requires
        rows.len() == targets.len(),
        0 <= at <= rows.len(),
    ensures
        ticked_of(rows, targets) == ticked_of(rows.take(at), targets.take(at)) + ticked_of(
            rows.skip(at),
            targets.skip(at),
        ),
    decreases rows.len(),
{
    let head = ticked_of(rows.take(at), targets.take(at));
    if at == rows.len() {
        assert(rows.take(at) =~= rows);
        assert(targets.take(at) =~= targets);
        assert(ticked_of(rows.skip(at), targets.skip(at)) =~= seq![]);
        assert(head + ticked_of(rows.skip(at), targets.skip(at)) =~= head);
    } else {
        lemma_ticked_splits(rows.drop_last(), targets.drop_last(), at);
        assert(rows.drop_last().take(at) =~= rows.take(at));
        assert(targets.drop_last().take(at) =~= targets.take(at));
        assert(rows.drop_last().skip(at) =~= rows.skip(at).drop_last());
        assert(targets.drop_last().skip(at) =~= targets.skip(at).drop_last());
        assert(rows.skip(at).last() == rows.last());
        assert(targets.skip(at).last() == targets.last());
        let tail = ticked_of(rows.skip(at).drop_last(), targets.skip(at).drop_last());
        if rows.last().ticked {
            assert((head + tail).push(targets.last()) =~= head + tail.push(targets.last()));
        }
    }
}

// ---------------------------------------------------------------------------
// The match setup sheet.

/// The fields of one team.
#[derive(Debug, PartialEq, Eq)]
pub struct TeamFields {
    pub name: String,
    pub primary: String,
    pub secondary: String,
    pub font: String,
}

/// The setup sheet's fields.
#[derive(Debug, PartialEq, Eq)]
pub struct SetupFields {
    pub home: TeamFields,
    pub away: TeamFields,
    pub regulation_periods: String,
    pub regulation_minutes: String,
    pub overtime_periods: String,
    pub overtime_minutes: String,
    pub back_anchor: bool,
}

/// What [`TeamFields`] hold, as mathematical values.
#[verifier::ext_equal]
pub struct TeamFieldsView {
    pub name: Seq<char>,
    pub primary: Seq<char>,
    pub secondary: Seq<char>,
    pub font: Seq<char>,
}

/// What [`SetupFields`] hold, as mathematical values.
#[verifier::ext_equal]
pub struct SetupView {
    pub home: TeamFieldsView,
    pub away: TeamFieldsView,
    pub regulation_periods: Seq<char>,
    pub regulation_minutes: Seq<char>,
    pub overtime_periods: Seq<char>,
    pub overtime_minutes: Seq<char>,
    pub back_anchor: bool,
}

impl View for TeamFields {
    type V = TeamFieldsView;

    open spec fn view(&self) -> TeamFieldsView {
        TeamFieldsView {
            name: self.name@,
            primary: self.primary@,
            secondary: self.secondary@,
            font: self.font@,
        }
    }
}

impl View for SetupFields {
    type V = SetupView;

    open spec fn view(&self) -> SetupView {
        SetupView {
            home: self.home@,
            away: self.away@,
            regulation_periods: self.regulation_periods@,
            regulation_minutes: self.regulation_minutes@,
            overtime_periods: self.overtime_periods@,
            overtime_minutes: self.overtime_minutes@,
            back_anchor: self.back_anchor,
        }
    }
}

/// What a team's configuration holds, as mathematical values.
#[verifier::ext_equal]
pub struct TeamView {
    pub name: Seq<char>,
    pub primary: Rgba,
    pub secondary: Rgba,
    pub font: Rgba,
}

/// What a scoreboard's configuration holds, as mathematical values.
#[verifier::ext_equal]
pub struct ConfigView {
    pub home: TeamView,
    pub away: TeamView,
    pub format: MatchFormat,
    pub back_anchor: bool,
}

/// What a team's configuration holds.
pub open spec fn team_view(team: TeamConfig) -> TeamView {
    TeamView {
        name: team.name@,
        primary: team.primary_color,
        secondary: team.secondary_color,
        font: team.font_color,
    }
}

/// What a scoreboard's configuration holds.
pub open spec fn config_view(config: ScoreboardConfig) -> ConfigView {
    ConfigView {
        home: team_view(config.home),
        away: team_view(config.away),
        format: config.format,
        back_anchor: config.auto_back_anchor_p1,
    }
}

/// A period's length in the whole minutes that the sheet shows.
pub open spec fn whole_minutes(seconds: nat) -> nat {
    if (seconds + 30) / 60 < 1 {
        1
    } else {
        (seconds + 30) / 60
    }
}

/// The fields that show a team.
pub open spec fn team_fields(team: TeamView) -> TeamFieldsView {
    TeamFieldsView {
        name: team.name,
        primary: match_panel::hex_text(team.primary),
        secondary: match_panel::hex_text(team.secondary),
        font: match_panel::hex_text(team.font),
    }
}

/// The fields that show a setup.
pub open spec fn fields_of(config: ConfigView) -> SetupView {
    SetupView {
        home: team_fields(config.home),
        away: team_fields(config.away),
        regulation_periods: text::decimal(config.format.regulation_periods as nat),
        regulation_minutes: text::decimal(
            whole_minutes(config.format.regulation_period_seconds as nat),
        ),
        overtime_periods: text::decimal(config.format.overtime_periods as nat),
        overtime_minutes: text::decimal(
            whole_minutes(config.format.overtime_period_seconds as nat),
        ),
        back_anchor: config.back_anchor,
    }
}

/// The team that some fields hold, if all of them parse.
#[verifier::opaque]
pub open spec fn team_in(fields: TeamFieldsView) -> Option<TeamView> {
    let primary = match_panel::color_in(fields.primary);
    let secondary = match_panel::color_in(fields.secondary);
    let font = match_panel::color_in(fields.font);
    if primary is Some && secondary is Some && font is Some {
        Some(
            TeamView {
                name: text::trimmed(fields.name),
                primary: primary->0,
                secondary: secondary->0,
                font: font->0,
            },
        )
    } else {
        None
    }
}

/// The setup that the sheet's fields hold, if all of them parse.
pub open spec fn setup_in(fields: SetupView) -> Option<ConfigView> {
    let home = team_in(fields.home);
    let away = team_in(fields.away);
    let periods = match_panel::count_in(fields.regulation_periods, 1, 10);
    let minutes = match_panel::count_in(fields.regulation_minutes, 1, 180);
    let overtime = match_panel::count_in(fields.overtime_periods, 0, 10);
    let overtime_minutes = match_panel::count_in(fields.overtime_minutes, 1, 180);
    if home is Some && away is Some && periods is Some && minutes is Some && overtime is Some
        && overtime_minutes is Some {
        Some(
            ConfigView {
                home: home->0,
                away: away->0,
                format: MatchFormat {
                    regulation_periods: periods->0,
                    regulation_period_seconds: (minutes->0 * 60) as u32,
                    overtime_periods: overtime->0,
                    overtime_period_seconds: (overtime_minutes->0 * 60) as u32,
                },
                back_anchor: fields.back_anchor,
            },
        )
    } else {
        None
    }
}

fn show_team(team: &TeamConfig) -> (fields: TeamFields)
    ensures
        fields@ == team_fields(team_view(*team)),
{
    TeamFields {
        name: team.name.clone(),
        primary: hex(team.primary_color),
        secondary: hex(team.secondary_color),
        font: hex(team.font_color),
    }
}

fn show_number(n: u64) -> (shown: String)
    ensures
        shown@ == text::decimal(n as nat),
{
    let mut shown = String::new();
    text::push_decimal(&mut shown, n);
    assert(shown@ =~= text::decimal(n as nat));
    shown
}

fn show_minutes(seconds: u32) -> (shown: String)
    ensures
        shown@ == text::decimal(whole_minutes(seconds as nat)),
{
    let minutes: u64 = (seconds as u64 + 30) / 60;
    show_number(
        if minutes < 1 {
            1
        } else {
            minutes
        },
    )
}

/// Seeds the setup sheet from a configuration. The sheet writes whole minutes
/// back, so this only ever rounds a configuration some other build wrote.
pub fn open_match_setup(config: &ScoreboardConfig) -> (fields: SetupFields)
    ensures
        fields@ == fields_of(config_view(*config)),
{
    SetupFields {
        home: show_team(&config.home),
        away: show_team(&config.away),
        regulation_periods: show_number(config.format.regulation_periods as u64),
        regulation_minutes: show_minutes(config.format.regulation_period_seconds),
        overtime_periods: show_number(config.format.overtime_periods as u64),
        overtime_minutes: show_minutes(config.format.overtime_period_seconds),
        back_anchor: config.auto_back_anchor_p1,
    }
}

fn read_team(fields: &TeamFields) -> (team: Option<TeamConfig>)
    ensures
        match team {
            Some(t) => team_in(fields@) == Some(team_view(t)),
            None => team_in(fields@) is None,
        },
{
    reveal(team_in);
    match (
        parse_hex(fields.primary.as_str()),
        parse_hex(fields.secondary.as_str()),
        parse_hex(fields.font.as_str()),
    ) {
        (Some(primary_color), Some(secondary_color), Some(font_color)) => Some(
            TeamConfig {
                name: text::trim(fields.name.as_str()),
                primary_color,
                secondary_color,
                font_color,
            },
        ),
        _ => None,
    }
}

/// The setup sheet's fields as a configuration; `None` if one of them doesn't
/// parse. A team without a name is refused later.
pub fn match_setup(fields: &SetupFields) -> (config: Option<ScoreboardConfig>)
    ensures
        match config {
            Some(c) => setup_in(fields@) == Some(config_view(c)),
            None => setup_in(fields@) is None,
        },
{
    let home = match read_team(&fields.home) {
        Some(team) => team,
        None => {
            return None;
        },
    };
    let away = match read_team(&fields.away) {
        Some(team) => team,
        None => {
            return None;
        },
    };
    match (
        parse_periods(fields.regulation_periods.as_str()),
        parse_minutes(fields.regulation_minutes.as_str()),
        parse_overtime_periods(fields.overtime_periods.as_str()),
        parse_minutes(fields.overtime_minutes.as_str()),
    ) {
        (Some(periods), Some(minutes), Some(overtime), Some(overtime_minutes)) => Some(
            ScoreboardConfig {
                home,
                away,
                format: MatchFormat {
                    regulation_periods: periods,
                    regulation_period_seconds: minutes * 60,
                    overtime_periods: overtime,
                    overtime_period_seconds: overtime_minutes * 60,
                },
                auto_back_anchor_p1: fields.back_anchor,
            },
        ),
        _ => None,
    }
}

/// Whether a colour is one that a field can write: 8 bits a channel, opaque.
pub open spec fn writable_color(color: Rgba) -> bool {
    match_panel::rounded(color) == color
}

/// Whether a team is one that the sheet's fields can write.
pub open spec fn writable_team(team: TeamView) -> bool {
    &&& text::trimmed(team.name) == team.name
    &&& writable_color(team.primary)
    &&& writable_color(team.secondary)
    &&& writable_color(team.font)
}

/// Whether a period's length is one that the sheet's fields can write.
pub open spec fn writable_length(seconds: u32) -> bool {
    seconds % 60 == 0 && 60 <= seconds <= 10_800
}

/// Whether a setup is one that the sheet's fields can write.
pub open spec fn writable(config: ConfigView) -> bool {
    &&& writable_team(config.home)
    &&& writable_team(config.away)
    &&& 1 <= config.format.regulation_periods <= 10
    &&& config.format.overtime_periods <= 10
    &&& writable_length(config.format.regulation_period_seconds)
    &&& writable_length(config.format.overtime_period_seconds)
}

proof fn lemma_count_reads_back(n: u32, min: u32, max: u32)
    requires
        min <= n <= max,
    ensures
        match_panel::count_in(text::decimal(n as nat), min, max) == Some(n),
{
    let s = text::decimal(n as nat);
    text::lemma_decimal_reads_back(n as nat);
    assert(text::is_digit(s[0]));
    assert(text::is_digit(s[s.len() - 1]));
    assert(!text::white_space(s[0]));
    assert(!text::white_space(s.last()));
    assert(text::trimmed(s) == s);
    assert(text::unsigned(s) =~= s);
}

proof fn lemma_color_reads_back(color: Rgba)
    requires
        writable_color(color),
    ensures
        match_panel::color_in(match_panel::hex_text(color)) == Some(color),
{
    match_panel::law_colours_round_trip_through_their_field(color);
}

#[verifier::spinoff_prover]
proof fn lemma_team_reads_back(team: TeamView)
    requires
        writable_team(team),
    ensures
        team_in(team_fields(team)) == Some(team),
{
    reveal(team_in);
    lemma_color_reads_back(team.primary);
    lemma_color_reads_back(team.secondary);
    lemma_color_reads_back(team.font);
}

proof fn lemma_length_reads_back(seconds: u32)
    requires
        writable_length(seconds),
    ensures
        ({
            let read = match_panel::count_in(
                text::decimal(whole_minutes(seconds as nat)),
                1,
                180,
            );
            read is Some && (read->0 * 60) as u32 == seconds
        }),
{
    let minutes = whole_minutes(seconds as nat);
    assert(minutes * 60 == seconds);
    lemma_count_reads_back(minutes as u32, 1, 180);
}

/// **A setup survives its sheet**: what the sheet shows of a setup that it can
/// write is read back as that setup.
#[verifier::spinoff_prover]
pub proof fn law_a_setup_survives_its_sheet(config: ConfigView)
    requires
        writable(config),
    ensures
        setup_in(fields_of(config)) == Some(config),
{
    lemma_team_reads_back(config.home);
    lemma_team_reads_back(config.away);
    let format = config.format;
    lemma_count_reads_back(format.regulation_periods, 1, 10);
    lemma_count_reads_back(format.overtime_periods, 0, 10);
    lemma_length_reads_back(format.regulation_period_seconds);
    lemma_length_reads_back(format.overtime_period_seconds);
    assert(setup_in(fields_of(config))->0 =~= config);
}

/// **A row says what it counts, and is ticked as the sheet was opened**: on a
/// clip the clip's row alone, and otherwise every row but that.
pub proof fn law_a_row_says_what_it_counts(row: ExportTargetRow)
    ensures
        row_of(row, true).label == row.label@,
        row_of(row, true).ticked == (row.target is Clip),
        row_of(row, false).ticked == !(row.target is Clip),
        row.count == 1 ==> row_of(row, false).detail == text::decimal(1) + " "@ + row.unit@
            + " · "@ + crate::format::hms(row.frames * 100_000_000),
        row.count != 1 ==> row_of(row, false).detail == text::decimal(row.count as nat) + " "@
            + row.unit@ + "s"@ + " · "@ + crate::format::hms(row.frames * 100_000_000),
{
    reveal_strlit("");
    if row.count == 1 {
        assert(row_of(row, false).detail =~= text::decimal(1) + " "@ + row.unit@ + " · "@
            + crate::format::hms(row.frames * 100_000_000));
    }
}

/// **A sheet shows the nearest minute**, and never none.
pub proof fn law_a_sheet_shows_the_nearest_minute(seconds: nat)
    ensures
        whole_minutes(seconds) >= 1,
        seconds >= 30 ==> -30 <= whole_minutes(seconds) * 60 - seconds <= 30,
        seconds < 30 ==> whole_minutes(seconds) == 1,
{
}

/// **A sheet is read only where every field is right**: the counts and lengths
/// in their ranges, the lengths in whole minutes and every colour one; and it
/// is read as what the fields say.
pub proof fn law_a_sheet_is_read_where_every_field_is_right(fields: SetupView)
    ensures
        setup_in(fields) is Some <==> {
            &&& match_panel::color_in(fields.home.primary) is Some
            &&& match_panel::color_in(fields.home.secondary) is Some
            &&& match_panel::color_in(fields.home.font) is Some
            &&& match_panel::color_in(fields.away.primary) is Some
            &&& match_panel::color_in(fields.away.secondary) is Some
            &&& match_panel::color_in(fields.away.font) is Some
            &&& match_panel::count_in(fields.regulation_periods, 1, 10) is Some
            &&& match_panel::count_in(fields.regulation_minutes, 1, 180) is Some
            &&& match_panel::count_in(fields.overtime_periods, 0, 10) is Some
            &&& match_panel::count_in(fields.overtime_minutes, 1, 180) is Some
        },
        setup_in(fields) matches Some(config) ==> {
            &&& config.home.name == text::trimmed(fields.home.name)
            &&& config.away.name == text::trimmed(fields.away.name)
            &&& config.home.primary == match_panel::color_in(fields.home.primary)->0
            &&& config.home.secondary == match_panel::color_in(fields.home.secondary)->0
            &&& config.home.font == match_panel::color_in(fields.home.font)->0
            &&& config.away.primary == match_panel::color_in(fields.away.primary)->0
            &&& config.away.secondary == match_panel::color_in(fields.away.secondary)->0
            &&& config.away.font == match_panel::color_in(fields.away.font)->0
            &&& config.back_anchor == fields.back_anchor
            &&& 1 <= config.format.regulation_periods <= 10
            &&& config.format.overtime_periods <= 10
            &&& 60 <= config.format.regulation_period_seconds <= 10_800
            &&& 60 <= config.format.overtime_period_seconds <= 10_800
            &&& config.format.regulation_period_seconds % 60 == 0
            &&& config.format.overtime_period_seconds % 60 == 0
        },
{
    reveal(team_in);
}

/// **A sheet exports what is ticked, at the pickers' choice**, and nothing where
/// nothing is.
pub proof fn law_a_sheet_exports_what_is_ticked(
    sheet: &ExportSheet,
    resolution: i32,
    quality: i32,
    command: Command,
    i: int,
)
    requires
        call_ensures(ExportSheet::start_export, (sheet, resolution, quality), command),
        sheet.rows@.len() == sheet.targets@.len(),
        0 <= i < sheet.rows@.len(),
    ensures
        command is Export,
        sheet.rows@[i].ticked ==> command->Export_targets@.contains(sheet.targets@[i]),
        command->Export_resolution == if resolution == 0 {
            Resolution::R720
        } else {
            Resolution::R1080
        },
        quality == 0 ==> command->Export_quality == Quality::Low,
        quality == 1 ==> command->Export_quality == Quality::Medium,
        quality == 2 ==> command->Export_quality == Quality::High,
        (forall|k: int| 0 <= k < sheet.rows@.len() ==> !(#[trigger] sheet.rows@[k]).ticked)
            ==> command->Export_targets@.len() == 0,
{
    let rows = row_views(sheet.rows@);
    let targets = sheet.targets@;
    assert(rows[i] == sheet.rows@[i]@);
    law_a_tick_is_one_row_s(rows, targets, i, rows[i].ticked);
    assert(rows.update(i, (TargetRowView { ticked: rows[i].ticked, ..rows[i] })) =~= rows);
    let ticked = ticked_of(rows, targets);
    if rows[i].ticked {
        let before = ticked_of(rows.take(i), targets.take(i));
        assert(ticked[before.len() as int] == targets[i]);
    }
    if forall|k: int| 0 <= k < sheet.rows@.len() ==> !(#[trigger] sheet.rows@[k]).ticked {
        assert forall|k: int| 0 <= k < rows.len() implies !(#[trigger] rows[k]).ticked by {
            assert(rows[k] == sheet.rows@[k]@);
        }
        lemma_none_is_ticked(rows, targets);
    }
}

proof fn lemma_none_is_ticked(rows: Seq<TargetRowView>, targets: Seq<ExportTarget>)
    requires
        rows.len() == targets.len(),
        forall|k: int| 0 <= k < rows.len() ==> !(#[trigger] rows[k]).ticked,
    ensures
        ticked_of(rows, targets).len() == 0,
    decreases rows.len(),
{
    if rows.len() > 0 {
        assert(!rows[rows.len() - 1].ticked);
        assert forall|k: int| 0 <= k < rows.drop_last().len() implies !(
        #[trigger] rows.drop_last()[k]).ticked by {
            assert(rows.drop_last()[k] == rows[k]);
        }
        lemma_none_is_ticked(rows.drop_last(), targets.drop_last());
    }
}

/// **A sheet opens on every target offered**, in order, and a tick changes its
/// own row alone.
pub proof fn law_a_sheet_opens_on_every_target(
    project: &Project,
    offered: Vec<ExportTargetRow>,
    only_clip: bool,
    opened: ExportSheet,
    sheet: &mut ExportSheet,
    index: i32,
    ticked: bool,
    i: int,
)
    requires
        call_ensures(open_export_sheet, (project, offered, only_clip), opened),
        call_ensures(ExportSheet::tick_target, (sheet, index, ticked), ()),
    ensures
        opened.rows@.len() == offered@.len() && opened.targets@.len() == offered@.len(),
        0 <= i < offered@.len() ==> {
            &&& opened.targets@[i] == offered@[i].target
            &&& opened.rows@[i].label@ == offered@[i].label@
            &&& opened.rows@[i].ticked == ((offered@[i].target is Clip) == only_clip)
        },
        final(sheet).rows@.len() == old(sheet).rows@.len(),
        final(sheet).targets == old(sheet).targets,
        0 <= i < old(sheet).rows@.len() && i == index ==> final(sheet).rows@[i].ticked == ticked,
        0 <= i < old(sheet).rows@.len() && i != index ==> final(sheet).rows@[i].ticked
            == old(sheet).rows@[i].ticked,
        0 <= i < old(sheet).rows@.len() ==> final(sheet).rows@[i].label@
            == old(sheet).rows@[i].label@,
{
    let rows = row_views(opened.rows@);
    assert(rows.len() == opened.rows@.len());
    if 0 <= i < offered@.len() {
        assert(rows[i] == opened.rows@[i]@);
        assert(rows[i] == row_of(offered@[i], only_clip));
    }
    let now = row_views(final(sheet).rows@);
    let was = row_views(old(sheet).rows@);
    assert(now.len() == was.len());
    if 0 <= i < old(sheet).rows@.len() {
        assert(now[i] == final(sheet).rows@[i]@);
        assert(was[i] == old(sheet).rows@[i]@);
    }
}

} // verus!
