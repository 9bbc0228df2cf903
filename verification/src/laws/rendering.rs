//! What a rendered report shows under which name.

use vstd::prelude::*;

use crate::calibration::{CalibrationTerminal, FreezeError};
use crate::diagnose::{experimental_policy, Classification, DiagnoseError, DiagnosisReport};
use crate::init::{InitError, StageId};
use crate::ratio::Ratio;
use crate::scores::{BucketThreshold, CalibratedOnlineScores, MatrixScores, ScoreStatus};
use crate::snapshot::{CalibrationPopulation, DeltaError};
use crate::text::{
    classification_text, decimal, digit_text, population_text, score_line, stage_text, status_text,
    terminal_text, PolicyTexts, ScoreTexts,
};

verus! {

/// The digit that a character stands for.
pub open spec fn digit_value(digit: char) -> int {
    digit as int - '0' as int
}

/// The number that a text of digits stands for.
pub open spec fn number_of(text: Seq<char>) -> int
    decreases text.len(),
{
    if text.len() == 0 {
        0
    } else {
        10 * number_of(text.drop_last()) + digit_value(text.last())
    }
}

proof fn lemma_digits(digit: nat)
    requires
        digit < 10,
    ensures
        digit_text(digit).len() == 1,
        '0' <= digit_text(digit)[0] <= '9',
        digit_value(digit_text(digit)[0]) == digit,
{
    reveal_strlit("0");
    reveal_strlit("1");
    reveal_strlit("2");
    reveal_strlit("3");
    reveal_strlit("4");
    reveal_strlit("5");
    reveal_strlit("6");
    reveal_strlit("7");
    reveal_strlit("8");
    reveal_strlit("9");
}

/// Decimal texts read back as the number: they are made of digits, begin with a
/// zero only for zero, and stand for the number.
pub proof fn law_decimals_read_back(number: nat)
    ensures
        number_of(decimal(number)) == number,
        decimal(number).len() > 0,
        number > 0 ==> decimal(number)[0] != '0',
        forall|i: int| 0 <= i < decimal(number).len() ==> '0' <= #[trigger] decimal(number)[i] <= '9',
    decreases number,
{
    if number < 10 {
        lemma_digits(number);
        let text = decimal(number);
        assert(text.drop_last() =~= Seq::<char>::empty());
        assert(number_of(text) == 10 * number_of(text.drop_last()) + digit_value(text.last()));
    } else {
        law_decimals_read_back(number / 10);
        lemma_digits(number % 10);
        let text = decimal(number);
        assert(text.drop_last() =~= decimal(number / 10));
        assert(text.last() == digit_text(number % 10)[0]);
    }
}

/// The words that stand for a score status.
pub open spec fn words(status: ScoreStatus) -> Seq<char> {
    if status == ScoreStatus::Available {
        "available"@
    } else if status == ScoreStatus::NoPredecessorPopulation {
        "no predecessor population"@
    } else if status == ScoreStatus::ZeroDenominator {
        "zero denominator"@
    } else if status == ScoreStatus::InconsistentSnapshot {
        "inconsistent relaxed snapshot"@
    } else {
        "arithmetic overflow"@
    }
}

/// A score with the name that it is shown under and the text of its value.
pub struct NamedScore {
    /// Name.
    pub name: Seq<char>,
    /// Integer numerator.
    pub numerator: u128,
    /// Integer denominator.
    pub denominator: u128,
    /// Exact ratio, when the score is available.
    pub value: Option<Ratio>,
    /// Availability.
    pub status: ScoreStatus,
    /// Text of the value.
    pub text: Seq<char>,
}

/// The line that shows terms and an outcome under a name.
pub open spec fn line(
    name: Seq<char>,
    numerator: u128,
    denominator: u128,
    outcome: Seq<char>,
) -> Seq<char> {
    "  "@ + name + ": "@ + decimal(numerator as nat) + "/"@ + decimal(denominator as nat) + " = "@
        + outcome + "\n"@
}

impl NamedScore {
    /// The line of a score: its terms, and its value or its status without one.
    pub open spec fn line(self) -> Seq<char> {
        line(
            self.name,
            self.numerator,
            self.denominator,
            if self.value is Some {
                self.text
            } else {
                "n/a ("@ + words(self.status) + ")"@
            },
        )
    }
}

/// A text with the lines of the first scores of a table after it.
#[verifier::opaque]
pub open spec fn with_lines(before: Seq<char>, table: Seq<NamedScore>, end: int) -> Seq<char>
    decreases end,
{
    if end <= 0 {
        before
    } else {
        with_lines(before, table, end - 1) + table[end - 1].line()
    }
}

/// A text shows terms and an outcome under a name on a line of their own.
pub open spec fn shows(
    text: Seq<char>,
    name: Seq<char>,
    numerator: u128,
    denominator: u128,
    outcome: Seq<char>,
) -> bool {
    exists|before: Seq<char>, after: Seq<char>|
        text == #[trigger] (before + line(name, numerator, denominator, outcome) + after)
}

proof fn lemma_line(before: Seq<char>, table: Seq<NamedScore>, at: int, end: int)
    requires
        0 <= at < end <= table.len(),
    ensures
        shows(
            with_lines(before, table, end),
            table[at].name,
            table[at].numerator,
            table[at].denominator,
            if table[at].value is Some {
                table[at].text
            } else {
                "n/a ("@ + words(table[at].status) + ")"@
            },
        ),
    decreases end,
{
    reveal(with_lines);
    let text = with_lines(before, table, end);
    let outcome = if table[at].value is Some {
        table[at].text
    } else {
        "n/a ("@ + words(table[at].status) + ")"@
    };
    let shown = line(table[at].name, table[at].numerator, table[at].denominator, outcome);
    if at == end - 1 {
        let head = with_lines(before, table, end - 1);
        assert(text =~= head + shown + Seq::<char>::empty());
    } else {
        lemma_line(before, table, at, end - 1);
        let rest = with_lines(before, table, end - 1);
        let (head, tail) = choose|head: Seq<char>, tail: Seq<char>|
            rest == #[trigger] (head + shown + tail);
        let last = table[end - 1].line();
        assert(text =~= head + shown + (tail + last));
    }
}

/// The line of a score as it is rendered.
spec fn rendered(score: NamedScore) -> Seq<char> {
    score_line(
        score.name,
        score.numerator,
        score.denominator,
        score.value is Some,
        score.status,
        score.text,
    )
}

proof fn lemma_score_line(score: NamedScore)
    ensures
        rendered(score) == score.line(),
{
    reveal_strlit(")\n");
    reveal_strlit(")");
    reveal_strlit("\n");
    let head = "  "@ + score.name + ": "@ + decimal(score.numerator as nat) + "/"@ + decimal(
        score.denominator as nat,
    ) + " = "@;
    if score.value is Some {
        assert(head + (score.text + "\n"@) =~= head + score.text + "\n"@);
    } else {
        let reason = "n/a ("@ + words(score.status);
        assert(status_text(score.status) == words(score.status));
        assert(")\n"@ =~= ")"@ + "\n"@);
        assert(head + (reason + ")\n"@) =~= head + (reason + ")"@) + "\n"@);
    }
}

proof fn lemma_all_lines(before: Seq<char>, table: Seq<NamedScore>)
    requires
        table.len() == 7,
    ensures
        forall|at: int|
            #![trigger table[at]]
            0 <= at < 7 ==> shows(
                with_lines(before, table, 7),
                table[at].name,
                table[at].numerator,
                table[at].denominator,
                if table[at].value is Some {
                    table[at].text
                } else {
                    "n/a ("@ + words(table[at].status) + ")"@
                },
            ),
{
    assert forall|at: int|
        #![trigger table[at]]
        0 <= at < 7 implies shows(
        with_lines(before, table, 7),
        table[at].name,
        table[at].numerator,
        table[at].denominator,
        if table[at].value is Some {
            table[at].text
        } else {
            "n/a ("@ + words(table[at].status) + ")"@
        },
    ) by {
        lemma_line(before, table, at, 7);
    }
}

proof fn lemma_seven_lines(before: Seq<char>, table: Seq<NamedScore>)
    requires
        table.len() == 7,
    ensures
        with_lines(before, table, 7) == before + rendered(table[0]) + rendered(table[1]) + rendered(
            table[2],
        ) + rendered(table[3]) + rendered(table[4]) + rendered(table[5]) + rendered(table[6]),
{
    reveal_with_fuel(with_lines, 8);
    lemma_score_line(table[0]);
    lemma_score_line(table[1]);
    lemma_score_line(table[2]);
    lemma_score_line(table[3]);
    lemma_score_line(table[4]);
    lemma_score_line(table[5]);
    lemma_score_line(table[6]);
}

/// The lines above the scores of the calibrated-online path.
pub open spec fn online_heading(scores: CalibratedOnlineScores, before: Seq<char>) -> Seq<char> {
    before + "path: calibrated-online\n"@ + "  population: all-reached marks (first="@ + decimal(
        scores.first_samples as nat,
    ) + ", predecessor="@ + decimal(scores.predecessor_samples as nat) + ")\n"@ + "  epoch: "@
        + decimal(scores.epoch as nat) + "\n"@ + "  consistency: relaxed\n"@
        + "  thresholds_ns: local="@ + decimal(scores.thresholds.local as nat)
        + ", previous_cumulative="@ + (match scores.thresholds.previous_cumulative {
        Some(threshold) => decimal(threshold as nat),
        None => "n/a"@,
    }) + ", cumulative_after="@ + decimal(scores.thresholds.cumulative_after as nat) + "\n"@
}

/// The text of an optional bucket number.
pub open spec fn bucket_number(threshold: Option<BucketThreshold>) -> Seq<char> {
    match threshold {
        Some(found) => decimal(found.bucket as nat),
        None => "n/a"@,
    }
}

/// The lines above the scores of the matrix-derived path.
pub open spec fn matrix_heading(scores: MatrixScores, before: Seq<char>) -> Seq<char> {
    before + "path: matrix-derived (known drift)\n"@ + "  population: predecessor-only (cause="@
        + decimal(scores.cause_samples as nat) + ", incoming="@ + decimal(
        scores.incoming_samples as nat,
    ) + ")\n"@ + "  consistency: relaxed\n"@ + "  threshold_buckets: local="@ + bucket_number(
        scores.thresholds.local,
    ) + ", previous_cumulative="@ + bucket_number(scores.thresholds.previous_cumulative)
        + ", cumulative_after="@ + bucket_number(scores.thresholds.cumulative_after) + "\n"@
}

/// The scores of the calibrated-online path under their names, in the order of the report.
pub open spec fn named_online_scores(scores: CalibratedOnlineScores, texts: ScoreTexts) -> Seq<NamedScore> {
    seq![
        NamedScore {
            name: "tail_onset"@,
            numerator: scores.tail_onset.numerator,
            denominator: scores.tail_onset.denominator,
            value: scores.tail_onset.value,
            status: scores.tail_onset.status,
            text: texts.tail_onset@,
        },
        NamedScore {
            name: "local_tail_origin_clean"@,
            numerator: scores.local_tail_origin_clean.numerator,
            denominator: scores.local_tail_origin_clean.denominator,
            value: scores.local_tail_origin_clean.value,
            status: scores.local_tail_origin_clean.status,
            text: texts.local_tail_origin_clean@,
        },
        NamedScore {
            name: "local_tail_origin_tail"@,
            numerator: scores.local_tail_origin_tail.numerator,
            denominator: scores.local_tail_origin_tail.denominator,
            value: scores.local_tail_origin_tail.value,
            status: scores.local_tail_origin_tail.status,
            text: texts.local_tail_origin_tail@,
        },
        NamedScore {
            name: "local_tail_rate_given_prev_tail"@,
            numerator: scores.local_tail_rate_given_prev_tail.numerator,
            denominator: scores.local_tail_rate_given_prev_tail.denominator,
            value: scores.local_tail_rate_given_prev_tail.value,
            status: scores.local_tail_rate_given_prev_tail.status,
            text: texts.local_tail_rate_given_prev_tail@,
        },
        NamedScore {
            name: "local_tail_rate_given_prev_not_tail"@,
            numerator: scores.local_tail_rate_given_prev_not_tail.numerator,
            denominator: scores.local_tail_rate_given_prev_not_tail.denominator,
            value: scores.local_tail_rate_given_prev_not_tail.value,
            status: scores.local_tail_rate_given_prev_not_tail.status,
            text: texts.local_tail_rate_given_prev_not_tail@,
        },
        NamedScore {
            name: "amplification_lift"@,
            numerator: scores.amplification_lift.numerator,
            denominator: scores.amplification_lift.denominator,
            value: scores.amplification_lift.value,
            status: scores.amplification_lift.status,
            text: texts.amplification_lift@,
        },
        NamedScore {
            name: "carry_through"@,
            numerator: scores.carry_through.numerator,
            denominator: scores.carry_through.denominator,
            value: scores.carry_through.value,
            status: scores.carry_through.status,
            text: texts.carry_through@,
        },
    ]
}

/// The calibrated-online path shows every score under its own name: after the name come
/// the terms of the score of that name, and its value, or its status without one.
pub proof fn law_online_scores_are_shown_under_their_names(
    scores: CalibratedOnlineScores,
    before: Seq<char>,
    texts: ScoreTexts,
)
    ensures
        scores.with_score_lines(before, texts) == with_lines(before, named_online_scores(scores, texts), 7),
        shows(
            scores.with_text(before, texts),
            "tail_onset"@,
            scores.tail_onset.numerator,
            scores.tail_onset.denominator,
            if scores.tail_onset.value is Some {
                texts.tail_onset@
            } else {
                "n/a ("@ + words(scores.tail_onset.status) + ")"@
            },
        ),
        shows(
            scores.with_text(before, texts),
            "local_tail_origin_clean"@,
            scores.local_tail_origin_clean.numerator,
            scores.local_tail_origin_clean.denominator,
            if scores.local_tail_origin_clean.value is Some {
                texts.local_tail_origin_clean@
            } else {
                "n/a ("@ + words(scores.local_tail_origin_clean.status) + ")"@
            },
        ),
        shows(
            scores.with_text(before, texts),
            "local_tail_origin_tail"@,
            scores.local_tail_origin_tail.numerator,
            scores.local_tail_origin_tail.denominator,
            if scores.local_tail_origin_tail.value is Some {
                texts.local_tail_origin_tail@
            } else {
                "n/a ("@ + words(scores.local_tail_origin_tail.status) + ")"@
            },
        ),
        shows(
            scores.with_text(before, texts),
            "local_tail_rate_given_prev_tail"@,
            scores.local_tail_rate_given_prev_tail.numerator,
            scores.local_tail_rate_given_prev_tail.denominator,
            if scores.local_tail_rate_given_prev_tail.value is Some {
                texts.local_tail_rate_given_prev_tail@
            } else {
                "n/a ("@ + words(scores.local_tail_rate_given_prev_tail.status) + ")"@
            },
        ),
        shows(
            scores.with_text(before, texts),
            "local_tail_rate_given_prev_not_tail"@,
            scores.local_tail_rate_given_prev_not_tail.numerator,
            scores.local_tail_rate_given_prev_not_tail.denominator,
            if scores.local_tail_rate_given_prev_not_tail.value is Some {
                texts.local_tail_rate_given_prev_not_tail@
            } else {
                "n/a ("@ + words(scores.local_tail_rate_given_prev_not_tail.status) + ")"@
            },
        ),
        shows(
            scores.with_text(before, texts),
            "amplification_lift"@,
            scores.amplification_lift.numerator,
            scores.amplification_lift.denominator,
            if scores.amplification_lift.value is Some {
                texts.amplification_lift@
            } else {
                "n/a ("@ + words(scores.amplification_lift.status) + ")"@
            },
        ),
        shows(
            scores.with_text(before, texts),
            "carry_through"@,
            scores.carry_through.numerator,
            scores.carry_through.denominator,
            if scores.carry_through.value is Some {
                texts.carry_through@
            } else {
                "n/a ("@ + words(scores.carry_through.status) + ")"@
            },
        ),
{
    let table = named_online_scores(scores, texts);
    let start = online_heading(scores, before);
    lemma_online_table(scores, before, texts);
    lemma_online_table(scores, start, texts);
    lemma_online_text(scores, before, texts);
    lemma_all_lines(start, table);
    lemma_online_entries(scores, texts);
}

proof fn lemma_online_text(scores: CalibratedOnlineScores, before: Seq<char>, texts: ScoreTexts)
    ensures
        scores.with_text(before, texts) == scores.with_score_lines(online_heading(scores, before), texts),
{
}

#[verifier::rlimit(60)]
proof fn lemma_online_table(scores: CalibratedOnlineScores, before: Seq<char>, texts: ScoreTexts)
    ensures
        scores.with_score_lines(before, texts) == with_lines(before, named_online_scores(scores, texts), 7),
{
    lemma_seven_lines(before, named_online_scores(scores, texts));
    lemma_online_entries(scores, texts);
}

proof fn lemma_online_entries(scores: CalibratedOnlineScores, texts: ScoreTexts)
    ensures
        named_online_scores(scores, texts).len() == 7,
        named_online_scores(scores, texts)[0] == (NamedScore {
            name: "tail_onset"@,
            numerator: scores.tail_onset.numerator,
            denominator: scores.tail_onset.denominator,
            value: scores.tail_onset.value,
            status: scores.tail_onset.status,
            text: texts.tail_onset@,
        }),
        named_online_scores(scores, texts)[1] == (NamedScore {
            name: "local_tail_origin_clean"@,
            numerator: scores.local_tail_origin_clean.numerator,
            denominator: scores.local_tail_origin_clean.denominator,
            value: scores.local_tail_origin_clean.value,
            status: scores.local_tail_origin_clean.status,
            text: texts.local_tail_origin_clean@,
        }),
        named_online_scores(scores, texts)[2] == (NamedScore {
            name: "local_tail_origin_tail"@,
            numerator: scores.local_tail_origin_tail.numerator,
            denominator: scores.local_tail_origin_tail.denominator,
            value: scores.local_tail_origin_tail.value,
            status: scores.local_tail_origin_tail.status,
            text: texts.local_tail_origin_tail@,
        }),
        named_online_scores(scores, texts)[3] == (NamedScore {
            name: "local_tail_rate_given_prev_tail"@,
            numerator: scores.local_tail_rate_given_prev_tail.numerator,
            denominator: scores.local_tail_rate_given_prev_tail.denominator,
            value: scores.local_tail_rate_given_prev_tail.value,
            status: scores.local_tail_rate_given_prev_tail.status,
            text: texts.local_tail_rate_given_prev_tail@,
        }),
        named_online_scores(scores, texts)[4] == (NamedScore {
            name: "local_tail_rate_given_prev_not_tail"@,
            numerator: scores.local_tail_rate_given_prev_not_tail.numerator,
            denominator: scores.local_tail_rate_given_prev_not_tail.denominator,
            value: scores.local_tail_rate_given_prev_not_tail.value,
            status: scores.local_tail_rate_given_prev_not_tail.status,
            text: texts.local_tail_rate_given_prev_not_tail@,
        }),
        named_online_scores(scores, texts)[5] == (NamedScore {
            name: "amplification_lift"@,
            numerator: scores.amplification_lift.numerator,
            denominator: scores.amplification_lift.denominator,
            value: scores.amplification_lift.value,
            status: scores.amplification_lift.status,
            text: texts.amplification_lift@,
        }),
        named_online_scores(scores, texts)[6] == (NamedScore {
            name: "carry_through"@,
            numerator: scores.carry_through.numerator,
            denominator: scores.carry_through.denominator,
            value: scores.carry_through.value,
            status: scores.carry_through.status,
            text: texts.carry_through@,
        }),
{
}

/// The scores of the matrix-derived path under their names, in the order of the report.
pub open spec fn named_matrix_scores(scores: MatrixScores, texts: ScoreTexts) -> Seq<NamedScore> {
    seq![
        NamedScore {
            name: "tail_onset"@,
            numerator: scores.tail_onset.numerator,
            denominator: scores.tail_onset.denominator,
            value: scores.tail_onset.value,
            status: scores.tail_onset.status,
            text: texts.tail_onset@,
        },
        NamedScore {
            name: "local_tail_origin_clean"@,
            numerator: scores.local_tail_origin_clean.numerator,
            denominator: scores.local_tail_origin_clean.denominator,
            value: scores.local_tail_origin_clean.value,
            status: scores.local_tail_origin_clean.status,
            text: texts.local_tail_origin_clean@,
        },
        NamedScore {
            name: "local_tail_origin_tail"@,
            numerator: scores.local_tail_origin_tail.numerator,
            denominator: scores.local_tail_origin_tail.denominator,
            value: scores.local_tail_origin_tail.value,
            status: scores.local_tail_origin_tail.status,
            text: texts.local_tail_origin_tail@,
        },
        NamedScore {
            name: "local_tail_rate_given_prev_tail"@,
            numerator: scores.local_tail_rate_given_prev_tail.numerator,
            denominator: scores.local_tail_rate_given_prev_tail.denominator,
            value: scores.local_tail_rate_given_prev_tail.value,
            status: scores.local_tail_rate_given_prev_tail.status,
            text: texts.local_tail_rate_given_prev_tail@,
        },
        NamedScore {
            name: "local_tail_rate_given_prev_not_tail"@,
            numerator: scores.local_tail_rate_given_prev_not_tail.numerator,
            denominator: scores.local_tail_rate_given_prev_not_tail.denominator,
            value: scores.local_tail_rate_given_prev_not_tail.value,
            status: scores.local_tail_rate_given_prev_not_tail.status,
            text: texts.local_tail_rate_given_prev_not_tail@,
        },
        NamedScore {
            name: "amplification_lift"@,
            numerator: scores.amplification_lift.numerator,
            denominator: scores.amplification_lift.denominator,
            value: scores.amplification_lift.value,
            status: scores.amplification_lift.status,
            text: texts.amplification_lift@,
        },
        NamedScore {
            name: "carry_through"@,
            numerator: scores.carry_through.numerator,
            denominator: scores.carry_through.denominator,
            value: scores.carry_through.value,
            status: scores.carry_through.status,
            text: texts.carry_through@,
        },
    ]
}

/// The matrix-derived path shows every score under its own name: after the name come
/// the terms of the score of that name, and its value, or its status without one.
pub proof fn law_matrix_scores_are_shown_under_their_names(
    scores: MatrixScores,
    before: Seq<char>,
    texts: ScoreTexts,
)
    ensures
        scores.with_score_lines(before, texts) == with_lines(before, named_matrix_scores(scores, texts), 7),
        shows(
            scores.with_text(before, texts),
            "tail_onset"@,
            scores.tail_onset.numerator,
            scores.tail_onset.denominator,
            if scores.tail_onset.value is Some {
                texts.tail_onset@
            } else {
                "n/a ("@ + words(scores.tail_onset.status) + ")"@
            },
        ),
        shows(
            scores.with_text(before, texts),
            "local_tail_origin_clean"@,
            scores.local_tail_origin_clean.numerator,
            scores.local_tail_origin_clean.denominator,
            if scores.local_tail_origin_clean.value is Some {
                texts.local_tail_origin_clean@
            } else {
                "n/a ("@ + words(scores.local_tail_origin_clean.status) + ")"@
            },
        ),
        shows(
            scores.with_text(before, texts),
            "local_tail_origin_tail"@,
            scores.local_tail_origin_tail.numerator,
            scores.local_tail_origin_tail.denominator,
            if scores.local_tail_origin_tail.value is Some {
                texts.local_tail_origin_tail@
            } else {
                "n/a ("@ + words(scores.local_tail_origin_tail.status) + ")"@
            },
        ),
        shows(
            scores.with_text(before, texts),
            "local_tail_rate_given_prev_tail"@,
            scores.local_tail_rate_given_prev_tail.numerator,
            scores.local_tail_rate_given_prev_tail.denominator,
            if scores.local_tail_rate_given_prev_tail.value is Some {
                texts.local_tail_rate_given_prev_tail@
            } else {
                "n/a ("@ + words(scores.local_tail_rate_given_prev_tail.status) + ")"@
            },
        ),
        shows(
            scores.with_text(before, texts),
            "local_tail_rate_given_prev_not_tail"@,
            scores.local_tail_rate_given_prev_not_tail.numerator,
            scores.local_tail_rate_given_prev_not_tail.denominator,
            if scores.local_tail_rate_given_prev_not_tail.value is Some {
                texts.local_tail_rate_given_prev_not_tail@
            } else {
                "n/a ("@ + words(scores.local_tail_rate_given_prev_not_tail.status) + ")"@
            },
        ),
        shows(
            scores.with_text(before, texts),
            "amplification_lift"@,
            scores.amplification_lift.numerator,
            scores.amplification_lift.denominator,
            if scores.amplification_lift.value is Some {
                texts.amplification_lift@
            } else {
                "n/a ("@ + words(scores.amplification_lift.status) + ")"@
            },
        ),
        shows(
            scores.with_text(before, texts),
            "carry_through"@,
            scores.carry_through.numerator,
            scores.carry_through.denominator,
            if scores.carry_through.value is Some {
                texts.carry_through@
            } else {
                "n/a ("@ + words(scores.carry_through.status) + ")"@
            },
        ),
{
    let table = named_matrix_scores(scores, texts);
    let start = matrix_heading(scores, before);
    lemma_matrix_table(scores, before, texts);
    lemma_matrix_table(scores, start, texts);
    lemma_matrix_text(scores, before, texts);
    lemma_all_lines(start, table);
    lemma_matrix_entries(scores, texts);
}

proof fn lemma_matrix_text(scores: MatrixScores, before: Seq<char>, texts: ScoreTexts)
    ensures
        scores.with_text(before, texts) == scores.with_score_lines(matrix_heading(scores, before), texts),
{
}

#[verifier::rlimit(60)]
proof fn lemma_matrix_table(scores: MatrixScores, before: Seq<char>, texts: ScoreTexts)
    ensures
        scores.with_score_lines(before, texts) == with_lines(before, named_matrix_scores(scores, texts), 7),
{
    lemma_seven_lines(before, named_matrix_scores(scores, texts));
    lemma_matrix_entries(scores, texts);
}

proof fn lemma_matrix_entries(scores: MatrixScores, texts: ScoreTexts)
    ensures
        named_matrix_scores(scores, texts).len() == 7,
        named_matrix_scores(scores, texts)[0] == (NamedScore {
            name: "tail_onset"@,
            numerator: scores.tail_onset.numerator,
            denominator: scores.tail_onset.denominator,
            value: scores.tail_onset.value,
            status: scores.tail_onset.status,
            text: texts.tail_onset@,
        }),
        named_matrix_scores(scores, texts)[1] == (NamedScore {
            name: "local_tail_origin_clean"@,
            numerator: scores.local_tail_origin_clean.numerator,
            denominator: scores.local_tail_origin_clean.denominator,
            value: scores.local_tail_origin_clean.value,
            status: scores.local_tail_origin_clean.status,
            text: texts.local_tail_origin_clean@,
        }),
        named_matrix_scores(scores, texts)[2] == (NamedScore {
            name: "local_tail_origin_tail"@,
            numerator: scores.local_tail_origin_tail.numerator,
            denominator: scores.local_tail_origin_tail.denominator,
            value: scores.local_tail_origin_tail.value,
            status: scores.local_tail_origin_tail.status,
            text: texts.local_tail_origin_tail@,
        }),
        named_matrix_scores(scores, texts)[3] == (NamedScore {
            name: "local_tail_rate_given_prev_tail"@,
            numerator: scores.local_tail_rate_given_prev_tail.numerator,
            denominator: scores.local_tail_rate_given_prev_tail.denominator,
            value: scores.local_tail_rate_given_prev_tail.value,
            status: scores.local_tail_rate_given_prev_tail.status,
            text: texts.local_tail_rate_given_prev_tail@,
        }),
        named_matrix_scores(scores, texts)[4] == (NamedScore {
            name: "local_tail_rate_given_prev_not_tail"@,
            numerator: scores.local_tail_rate_given_prev_not_tail.numerator,
            denominator: scores.local_tail_rate_given_prev_not_tail.denominator,
            value: scores.local_tail_rate_given_prev_not_tail.value,
            status: scores.local_tail_rate_given_prev_not_tail.status,
            text: texts.local_tail_rate_given_prev_not_tail@,
        }),
        named_matrix_scores(scores, texts)[5] == (NamedScore {
            name: "amplification_lift"@,
            numerator: scores.amplification_lift.numerator,
            denominator: scores.amplification_lift.denominator,
            value: scores.amplification_lift.value,
            status: scores.amplification_lift.status,
            text: texts.amplification_lift@,
        }),
        named_matrix_scores(scores, texts)[6] == (NamedScore {
            name: "carry_through"@,
            numerator: scores.carry_through.numerator,
            denominator: scores.carry_through.denominator,
            value: scores.carry_through.value,
            status: scores.carry_through.status,
            text: texts.carry_through@,
        }),
{
}

/// The word for a label.
pub open spec fn word(label: Classification) -> Seq<char> {
    if label == Classification::Onset {
        "onset"@
    } else if label == Classification::Amplifier {
        "amplifier"@
    } else if label == Classification::CarryThrough {
        "carry-through"@
    } else {
        "inconclusive"@
    }
}

/// A report shows its stage, both paths with their own headings and scores, the
/// label of either path under the name of that path, and the policy, in this
/// order and with nothing else.
pub proof fn law_reports_show_both_paths_and_their_labels(
    report: DiagnosisReport,
    online: ScoreTexts,
    matrix: ScoreTexts,
    policy: PolicyTexts,
)
    ensures
        ({
            let title = Seq::<char>::empty() + "tracegrams diagnosis: "@ + report.stage_name@
                + "\n"@;
            let first = with_lines(
                online_heading(report.calibrated_online, title),
                named_online_scores(report.calibrated_online, online),
                7,
            );
            let second = with_lines(
                matrix_heading(report.matrix_derived, first),
                named_matrix_scores(report.matrix_derived, matrix),
                7,
            );
            report.text(online, matrix, policy) == second
                + "classification (calibrated-online): "@ + word(report.classification) + "\n"@
                + "classification (matrix-derived): "@ + word(report.matrix_classification)
                + "\n"@ + ("classification thresholds: onset>="@ + policy.onset@
                + ", amplification_lift>="@ + policy.amplification_lift@ + ", carry_through>="@
                + policy.carry_through@ + (if report.config.onset_threshold
                == 0x3fe6_6666_6666_6666u64 && report.config.amplification_lift_threshold
                == 0x4024_0000_0000_0000u64 && report.config.carry_through_threshold
                == 0x3fe9_9999_9999_999au64 {
                " (experimental PoC values)"@
            } else {
                ""@
            }))
        }),
{
    let title = Seq::<char>::empty() + "tracegrams diagnosis: "@ + report.stage_name@ + "\n"@;
    law_online_scores_are_shown_under_their_names(
        report.calibrated_online,
        online_heading(report.calibrated_online, title),
        online,
    );
    let first = report.calibrated_online.with_text(title, online);
    law_matrix_scores_are_shown_under_their_names(
        report.matrix_derived,
        matrix_heading(report.matrix_derived, first),
        matrix,
    );
    assert(report.config == experimental_policy() <==> report.config.onset_threshold
        == 0x3fe6_6666_6666_6666u64 && report.config.amplification_lift_threshold
        == 0x4024_0000_0000_0000u64 && report.config.carry_through_threshold
        == 0x3fe9_9999_9999_999au64);
    assert(word(report.classification) == classification_text(report.classification));
    assert(word(report.matrix_classification) == classification_text(
        report.matrix_classification,
    ));
}

/// Errors with parts show every part in its place.
pub proof fn law_errors_show_their_parts(
    stage: StageId,
    population: CalibrationPopulation,
    terminal: CalibrationTerminal,
    first: u64,
    second: u64,
)
    ensures
        (DeltaError::CounterUnderflow { earlier: first, later: second }).text()
            == "later counter value "@ + decimal(second as nat) + " is below earlier value "@
            + decimal(first as nat),
        (FreezeError::InvalidStageSelection { stage }).text()
            == "freeze criteria contains foreign "@ + stage_text(stage),
        (FreezeError::DuplicateStageSelection { stage }).text() == "freeze criteria repeats "@
            + stage_text(stage),
        (FreezeError::CalibrationArithmeticOverflow { stage, population }).text()
            == "calibration counter total overflowed for "@ + stage_text(stage) + " "@
            + population_text(population),
        (DiagnoseError::NotCalibrated { stage }).text() == stage_text(stage)
            + " is not calibrated"@,
        stage_text(stage) == "StageId("@ + decimal(stage.index as nat) + ")"@,
        population_text(population) == (if population == CalibrationPopulation::Local {
            "Local"@
        } else if population == CalibrationPopulation::CumulativeAfter {
            "CumulativeAfter"@
        } else {
            "PreviousCumulative"@
        }),
        terminal_text(terminal) == (if terminal == CalibrationTerminal::Lower {
            "Lower"@
        } else if terminal == CalibrationTerminal::Finite {
            "Finite"@
        } else {
            "Upper"@
        }),
{
}

/// Errors with two numbers show them in their order.
pub proof fn law_errors_show_their_numbers(
    required: usize,
    budget: usize,
    earlier: u16,
    later: u16,
    detail: Seq<char>,
)
    ensures
        (InitError::MemoryBudgetExceeded { required, budget }).text(detail)
            == "recorder requires "@ + decimal(required as nat) + " bytes, exceeding the "@
            + decimal(budget as nat) + "-byte budget"@,
        (InitError::TooManyStages { maximum: budget }).text(detail) == "at most "@ + decimal(
            budget as nat,
        ) + " stages may be registered"@,
        (DiagnoseError::EpochMismatch { earlier, later }).text()
            == "online diagnosis cannot span calibration epochs "@ + decimal(earlier as nat)
            + " and "@ + decimal(later as nat),
        (FreezeError::AlreadyFrozen { epoch: later }).text()
            == "calibration is already frozen at epoch "@ + decimal(later as nat),
{
}

} // verus!
