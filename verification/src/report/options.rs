use vstd::prelude::*;

use crate::calendar::{period_label, Period};
use crate::text::{chars_of, decimal, lemma_decimal, parse_unsigned, parsed_unsigned};

verus! {

/// What reading a period label gives: its session count, or the reason it is refused.
pub open spec fn period_label_result(s: Seq<char>) -> Result<u32, Seq<char>> {
    if !(s.len() > 0 && s.last() == 'D') {
        Err("period must end with D"@)
    } else {
        let body = s.drop_last();
        if body.len() == 0 || body[0] == '0' {
            Err("period must be a positive daily count"@)
        } else {
            match parsed_unsigned(body, u32::MAX as nat) {
                None => Err("period must be numeric"@),
                Some(v) => if v == 0 {
                    Err("period count must be positive, got "@ + decimal(0))
                } else {
                    Ok(v as u32)
                },
            }
        }
    }
}

/// Reading a period's label gives the period back.
pub proof fn lemma_period_label_roundtrip(count: u32)
    requires
        count > 0,
    ensures
        period_label_result(period_label(count as nat)) == Ok::<u32, Seq<char>>(count),
{
    lemma_decimal(count as nat);
    let s = period_label(count as nat);
    assert(s.drop_last() =~= decimal(count as nat));
}

/// Reads a period label such as `5D`.
pub fn parse_period_label(label: &str) -> (r: Result<Period, String>)
    ensures
        match period_label_result(label@) {
            Ok(c) => r == Ok::<Period, String>(Period::of_count(c)),
            Err(m) => r matches Err(e) && e@ == m,
        },
{
    proof {
        reveal_strlit("period must end with D");
        reveal_strlit("period must be a positive daily count");
        reveal_strlit("period must be numeric");
        reveal_strlit("period count must be positive, got ");
    }
    let chars = chars_of(label);
    let n: usize = chars.len();
    if n == 0 || chars[n - 1] != 'D' {
        return Err(String::from_str("period must end with D"));
    }
    proof {
        assert(chars@.subrange(0, n - 1) =~= label@.drop_last());
    }
    if n == 1 || chars[0] == '0' {
        return Err(String::from_str("period must be a positive daily count"));
    }
    match parse_unsigned(&chars, 0, n - 1, 4294967295) {
        None => Err(String::from_str("period must be numeric")),
        Some(v) => {
            match Period::new(v as u32) {
                Ok(p) => Ok(p),
                Err(e) => Err(e.message()),
            }
        },
    }
}

/// The labels of an optional list of periods.
pub fn serialize_periods(periods: &Option<Vec<Period>>) -> (r: Option<Vec<String>>)
    ensures
        match periods {
            Some(ps) => r matches Some(ls) && ls@.len() == ps@.len() && (forall|i: int|
                0 <= i < ps@.len() ==> #[trigger] ls@[i]@ == period_label(ps@[i].spec_count() as nat))
                && string_views(ls@) == labels_of(ps@),
            None => r is None,
        },
{
    match periods {
        None => None,
        Some(ps) => {
            let mut out: Vec<String> = Vec::new();
            let mut i: usize = 0;
            while i < ps.len()
                invariant
                    i <= ps@.len(),
                    out@.len() == i,
                    forall|k: int|
                        0 <= k < i ==> #[trigger] out@[k]@ == period_label(ps@[k].spec_count() as nat),
                decreases ps@.len() - i,
            {
                out.push(ps[i].label());
                i = i + 1;
            }
            assert(string_views(out@) =~= labels_of(ps@));
            Some(out)
        },
    }
}

/// Reads an optional list of period labels; the first label that is refused decides the error.
pub fn parse_optional_periods(labels: Option<Vec<String>>) -> (r: Result<
    Option<Vec<Period>>,
    String,
>)
    ensures
        match labels {
            None => r matches Ok(None),
            Some(ls) => {
                ||| (r matches Ok(Some(ps)) && ps@.len() == ls@.len() && forall|i: int|
                    0 <= i < ls@.len() ==> period_label_result(#[trigger] ls@[i]@) == Ok::<
                        u32,
                        Seq<char>,
                    >(ps@[i].spec_count()) && ps@[i] == Period::of_count(ps@[i].spec_count())
                    && ps@ == periods_read(string_views(ls@)))
                ||| (r matches Err(e) && exists|k: int|
                    0 <= k < ls@.len() && (forall|i: int|
                        0 <= i < k ==> #[trigger] period_label_result(ls@[i]@) is Ok)
                        && period_label_result(ls@[k]@) == Err::<u32, Seq<char>>(e@))
            },
        },
        labels matches Some(ls) ==> (r is Ok <==> forall|i: int|
            0 <= i < ls@.len() ==> #[trigger] period_label_result(ls@[i]@) is Ok),
{
    match labels {
        None => Ok(None),
        Some(ls) => {
            let mut out: Vec<Period> = Vec::new();
            let mut i: usize = 0;
            while i < ls.len()
                invariant
                    labels == Some(ls),
                    i <= ls@.len(),
                    out@.len() == i,
                    forall|k: int|
                        0 <= k < i ==> period_label_result(#[trigger] ls@[k]@) == Ok::<
                            u32,
                            Seq<char>,
                        >(out@[k].spec_count()) && out@[k] == Period::of_count(out@[k].spec_count()),
                decreases ls@.len() - i,
            {
                match parse_period_label(ls[i].as_str()) {
                    Ok(p) => {
                        proof {
                            let c = period_label_result(ls@[i as int]@)->Ok_0;
                            Period::lemma_count_determines(p, p, c);
                        }
                        let ghost before = out@;
                        out.push(p);
                        proof {
                            assert forall|k: int| 0 <= k < i + 1 implies period_label_result(
                                #[trigger] ls@[k]@,
                            ) == Ok::<u32, Seq<char>>(out@[k].spec_count()) && out@[k]
                                == Period::of_count(out@[k].spec_count()) by {
                                if k < i {
                                    assert(out@[k] == before[k]);
                                }
                            }
                        }
                    },
                    Err(e) => {
                        proof {
                            assert(period_label_result(ls@[i as int]@) is Err);
                            assert(forall|k: int| 0 <= k < i ==> #[trigger] period_label_result(ls@[k]@) is Ok);
                        }
                        return Err(e);
                    },
                }
                i = i + 1;
            }
            proof {
                assert forall|k: int| 0 <= k < out@.len() implies out@[k] == #[trigger] periods_read(
                    string_views(ls@),
                )[k] by {
                    assert(period_label_result(ls@[k]@) == Ok::<u32, Seq<char>>(out@[k].spec_count()));
                }
                assert(out@ =~= periods_read(string_views(ls@)));
            }
            Ok(Some(out))
        },
    }
}

/// The text of each string in a list.
pub open spec fn string_views(ls: Seq<String>) -> Seq<Seq<char>> {
    ls.map_values(|l: String| l@)
}

/// The labels of a list of periods, in order.
pub open spec fn labels_of(ps: Seq<Period>) -> Seq<Seq<char>> {
    ps.map_values(|p: Period| period_label(p.spec_count() as nat))
}

/// The periods that a list of accepted labels reads as, in order.
pub open spec fn periods_read(ls: Seq<Seq<char>>) -> Seq<Period> {
    ls.map_values(|l: Seq<char>| Period::of_count(period_label_result(l)->Ok_0))
}

/// Serializing periods and reading the labels back gives the same periods in the same
/// order: every label is accepted, and what it reads as is the period it was written from.
pub proof fn lemma_periods_roundtrip(periods: Seq<Period>)
    requires
        forall|i: int| 0 <= i < periods.len() ==> #[trigger] periods[i].spec_count() > 0,
    ensures
        forall|i: int|
            0 <= i < periods.len() ==> #[trigger] period_label_result(labels_of(periods)[i])
                == Ok::<u32, Seq<char>>(periods[i].spec_count()),
        periods_read(labels_of(periods)) == periods,
{
    let labels = labels_of(periods);
    assert forall|i: int| 0 <= i < periods.len() implies #[trigger] period_label_result(labels[i])
        == Ok::<u32, Seq<char>>(periods[i].spec_count()) by {
        lemma_period_label_roundtrip(periods[i].spec_count());
    }
    assert forall|i: int| 0 <= i < periods.len() implies #[trigger] periods_read(labels)[i]
        == periods[i] by {
        assert(period_label_result(labels[i]) == Ok::<u32, Seq<char>>(periods[i].spec_count()));
        Period::lemma_count_determines(periods[i], periods[i], 0);
    }
    assert(periods_read(labels) =~= periods);
}

/// Options of the returns tear sheet.
#[derive(Debug, Clone, Copy, PartialEq, Eq, Structural)]
pub struct ReturnsTearSheetOptions {
    pub long_short: bool,
    pub group_neutral: bool,
    pub by_group: bool,
}

impl Default for ReturnsTearSheetOptions {
    fn default() -> (r: Self)
        ensures
            r == (ReturnsTearSheetOptions { long_short: true, group_neutral: false, by_group: false }),
    {
        ReturnsTearSheetOptions { long_short: true, group_neutral: false, by_group: false }
    }
}

/// Options of the information tear sheet.
#[derive(Debug, Clone, Copy, PartialEq, Eq, Structural)]
pub struct InformationTearSheetOptions {
    pub group_neutral: bool,
    pub by_group: bool,
    pub rolling_window: u32,
}

impl Default for InformationTearSheetOptions {
    fn default() -> (r: Self)
        ensures
            r == (InformationTearSheetOptions {
                group_neutral: false,
                by_group: false,
                rolling_window: 22,
            }),
    {
        InformationTearSheetOptions { group_neutral: false, by_group: false, rolling_window: 22 }
    }
}

/// Options of the turnover tear sheet: explicit periods, or those of the factor data.
#[derive(Debug, Clone, PartialEq, Eq)]
pub struct TurnoverTearSheetOptions {
    pub periods: Option<Vec<Period>>,
}

impl Default for TurnoverTearSheetOptions {
    fn default() -> (r: Self)
        ensures
            r.periods is None,
    {
        TurnoverTearSheetOptions { periods: None }
    }
}

/// Options of the event-study tear sheet.
#[derive(Debug, Clone, Copy, PartialEq, Eq)]
pub struct EventStudyTearSheetOptions {
    pub event_window: Option<(u32, u32)>,
    pub rate_of_return: bool,
    pub histogram_bins: u32,
}

impl Default for EventStudyTearSheetOptions {
    fn default() -> (r: Self)
        ensures
            r == (EventStudyTearSheetOptions {
                event_window: Some((5, 15)),
                rate_of_return: false,
                histogram_bins: 50,
            }),
    {
        EventStudyTearSheetOptions {
            event_window: Some((5, 15)),
            rate_of_return: false,
            histogram_bins: 50,
        }
    }
}

/// Options of the summary tear sheet.
#[derive(Debug, Clone, PartialEq, Eq)]
pub struct SummaryTearSheetOptions {
    pub long_short: bool,
    pub group_neutral: bool,
    pub turnover_periods: Option<Vec<Period>>,
}

impl Default for SummaryTearSheetOptions {
    fn default() -> (r: Self)
        ensures
            r.long_short,
            !r.group_neutral,
            r.turnover_periods is None,
    {
        SummaryTearSheetOptions { long_short: true, group_neutral: false, turnover_periods: None }
    }
}

/// Options of the full tear sheet.
#[derive(Debug, Clone, PartialEq, Eq)]
pub struct FullTearSheetOptions {
    pub long_short: bool,
    pub group_neutral: bool,
    pub by_group: bool,
    pub turnover_periods: Option<Vec<Period>>,
    pub ic_rolling_window: u32,
}

impl Default for FullTearSheetOptions {
    fn default() -> (r: Self)
        ensures
            r.long_short,
            !r.group_neutral,
            !r.by_group,
            r.turnover_periods is None,
            r.ic_rolling_window == 22,
    {
        FullTearSheetOptions {
            long_short: true,
            group_neutral: false,
            by_group: false,
            turnover_periods: None,
            ic_rolling_window: 22,
        }
    }
}

/// A copy of an optional list of periods.
fn copy_periods(periods: &Option<Vec<Period>>) -> (r: Option<Vec<Period>>)
    ensures
        match periods {
            Some(ps) => r matches Some(qs) && qs@ == ps@,
            None => r is None,
        },
{
    match periods {
        None => None,
        Some(ps) => {
            let mut out: Vec<Period> = Vec::new();
            let mut i: usize = 0;
            while i < ps.len()
                invariant
                    i <= ps@.len(),
                    out@ == ps@.subrange(0, i as int),
                decreases ps@.len() - i,
            {
                out.push(ps[i]);
                i = i + 1;
            }
            assert(out@ =~= ps@);
            Some(out)
        },
    }
}

impl SummaryTearSheetOptions {
    /// The returns part of a summary never splits by group.
    pub fn returns_options(&self) -> (r: ReturnsTearSheetOptions)
        ensures
            r == (ReturnsTearSheetOptions {
                long_short: self.long_short,
                group_neutral: self.group_neutral,
                by_group: false,
            }),
    {
        ReturnsTearSheetOptions {
            long_short: self.long_short,
            group_neutral: self.group_neutral,
            by_group: false,
        }
    }

    /// The information part of a summary uses the default rolling window.
    pub fn information_options(&self) -> (r: InformationTearSheetOptions)
        ensures
            r == (InformationTearSheetOptions {
                group_neutral: self.group_neutral,
                by_group: false,
                rolling_window: 22,
            }),
    {
        InformationTearSheetOptions {
            group_neutral: self.group_neutral,
            by_group: false,
            rolling_window: InformationTearSheetOptions::default().rolling_window,
        }
    }

    pub fn turnover_options(&self) -> (r: TurnoverTearSheetOptions)
        ensures
            match self.turnover_periods {
                Some(ps) => r.periods matches Some(qs) && qs@ == ps@,
                None => r.periods is None,
            },
    {
        TurnoverTearSheetOptions { periods: copy_periods(&self.turnover_periods) }
    }
}

impl FullTearSheetOptions {
    pub fn returns_options(&self) -> (r: ReturnsTearSheetOptions)
        ensures
            r == (ReturnsTearSheetOptions {
                long_short: self.long_short,
                group_neutral: self.group_neutral,
                by_group: self.by_group,
            }),
    {
        ReturnsTearSheetOptions {
            long_short: self.long_short,
            group_neutral: self.group_neutral,
            by_group: self.by_group,
        }
    }

    pub fn information_options(&self) -> (r: InformationTearSheetOptions)
        ensures
            r == (InformationTearSheetOptions {
                group_neutral: self.group_neutral,
                by_group: self.by_group,
                rolling_window: self.ic_rolling_window,
            }),
    {
        InformationTearSheetOptions {
            group_neutral: self.group_neutral,
            by_group: self.by_group,
            rolling_window: self.ic_rolling_window,
        }
    }

    pub fn turnover_options(&self) -> (r: TurnoverTearSheetOptions)
        ensures
            match self.turnover_periods {
                Some(ps) => r.periods matches Some(qs) && qs@ == ps@,
                None => r.periods is None,
            },
    {
        TurnoverTearSheetOptions { periods: copy_periods(&self.turnover_periods) }
    }
}

} // verus!
