//! The grade point average: which records count, what each counts for on the
//! two scales, and where its weight is written. The weights stay text that
//! is read as a number; turning them into numbers and averaging is left to
//! the caller.

use crate::error::GradesError;
use crate::number::{is_number, number_text};
use crate::scrape::{CourseData, CourseRecord};
use crate::text::{from_chars, split_ascii_whitespace, split_chars, to_chars, trim, trim_chars};
use vstd::prelude::*;

verus! {

/// What a letter grade counts for: on the scale of nine points, and on the
/// scale of four points in tenths of a point.
#[derive(Debug, Clone, Copy, PartialEq, Eq, Structural)]
pub struct GradePoints {
    pub nine: u8,
    pub four_tenths: u8,
}

/// One term of the two weighted sums: the points of a grade and the text of
/// the credits that weigh it.
#[derive(Debug, Clone, PartialEq, Eq)]
pub struct GradeTerm {
    pub points: GradePoints,
    pub credit: String,
}

/// A term as a model.
pub struct TermView {
    pub points: GradePoints,
    pub credit: Seq<char>,
}

impl View for GradeTerm {
    type V = TermView;

    open spec fn view(&self) -> TermView {
        TermView { points: self.points, credit: self.credit@ }
    }
}

impl DeepView for GradeTerm {
    type V = TermView;

    open spec fn deep_view(&self) -> TermView {
        self@
    }
}

/// The two scales. The ten letter grades of the table count; every other
/// text counts for nothing.
pub open spec fn grade_points_of(grade: Seq<char>) -> Option<GradePoints> {
    if grade == "A+"@ {
        Some(GradePoints { nine: 9, four_tenths: 40 })
    } else if grade == "A"@ {
        Some(GradePoints { nine: 8, four_tenths: 38 })
    } else if grade == "B+"@ {
        Some(GradePoints { nine: 7, four_tenths: 33 })
    } else if grade == "B"@ {
        Some(GradePoints { nine: 6, four_tenths: 30 })
    } else if grade == "C+"@ {
        Some(GradePoints { nine: 5, four_tenths: 23 })
    } else if grade == "C"@ {
        Some(GradePoints { nine: 4, four_tenths: 20 })
    } else if grade == "D+"@ {
        Some(GradePoints { nine: 3, four_tenths: 13 })
    } else if grade == "D"@ {
        Some(GradePoints { nine: 2, four_tenths: 10 })
    } else if grade == "E"@ {
        Some(GradePoints { nine: 1, four_tenths: 7 })
    } else if grade == "F"@ {
        Some(GradePoints { nine: 0, four_tenths: 0 })
    } else {
        None
    }
}

/// The text of the credits of a course: the fourth of the words that ASCII
/// white space separates in it, without the white space that may be left
/// around it. `None` where the course has fewer than four words, and where
/// the fourth is not read as a number.
pub open spec fn credit_text_of(course: Seq<char>) -> Option<Seq<char>> {
    let words = split_ascii_whitespace(course);
    if words.len() >= 4 && is_number(trim(words[3])) {
        Some(trim(words[3]))
    } else {
        None
    }
}

/// The terms of the records that count, in the order of the records. A
/// record whose grade is none of the ten letter grades gives no term.
pub open spec fn graded_terms(records: Seq<CourseRecord>) -> Seq<TermView>
    decreases records.len(),
{
    if records.len() == 0 {
        Seq::empty()
    } else {
        let before = graded_terms(records.drop_last());
        match (grade_points_of(records.last().grade), credit_text_of(records.last().course)) {
            (Some(points), Some(credit)) => before.push(TermView { points, credit }),
            _ => before,
        }
    }
}

/// Every record that counts has credits that are read as a number.
pub open spec fn all_weighted(records: Seq<CourseRecord>) -> bool {
    forall|i: int|
        0 <= i < records.len() && grade_points_of((#[trigger] records[i]).grade) is Some
            ==> credit_text_of(records[i].course) is Some
}

/// What `gpa_terms` returns: the terms, or the failure where a record that
/// counts has a course without credits: one of fewer than four words, or one
/// whose fourth word is not read as a number.
pub open spec fn gpa_terms_of(records: Seq<CourseRecord>) -> Result<Seq<TermView>, GradesError> {
    if all_weighted(records) {
        Ok(graded_terms(records))
    } else {
        Err(GradesError::CreditParse)
    }
}

/// The view of a result that holds terms.
pub open spec fn terms_result(r: Result<Vec<GradeTerm>, GradesError>) -> Result<
    Seq<TermView>,
    GradesError,
> {
    match r {
        Ok(terms) => Ok(terms.deep_view()),
        Err(e) => Err(e),
    }
}

/// What the letter grade `grade` counts for on the two scales, if it is one
/// of the ten.
pub fn grade_points(grade: &str) -> (points: Option<GradePoints>)
    ensures
        points == grade_points_of(grade@),
{
    let letters = to_chars(grade);
    proof {
        reveal_strlit("A+");
        reveal_strlit("A");
        reveal_strlit("B+");
        reveal_strlit("B");
        reveal_strlit("C+");
        reveal_strlit("C");
        reveal_strlit("D+");
        reveal_strlit("D");
        reveal_strlit("E");
        reveal_strlit("F");
    }
    if letters.len() == 1 {
        let letter = letters[0];
        assert(letters@ =~= seq![letter]);
        if letter == 'A' {
            assert(letters@ =~= "A"@);
            Some(GradePoints { nine: 8, four_tenths: 38 })
        } else if letter == 'B' {
            assert(letters@ =~= "B"@);
            Some(GradePoints { nine: 6, four_tenths: 30 })
        } else if letter == 'C' {
            assert(letters@ =~= "C"@);
            Some(GradePoints { nine: 4, four_tenths: 20 })
        } else if letter == 'D' {
            assert(letters@ =~= "D"@);
            Some(GradePoints { nine: 2, four_tenths: 10 })
        } else if letter == 'E' {
            assert(letters@ =~= "E"@);
            Some(GradePoints { nine: 1, four_tenths: 7 })
        } else if letter == 'F' {
            assert(letters@ =~= "F"@);
            Some(GradePoints { nine: 0, four_tenths: 0 })
        } else {
            assert("A"@[0] == 'A' && "B"@[0] == 'B' && "C"@[0] == 'C' && "D"@[0] == 'D' && "E"@[0]
                == 'E' && "F"@[0] == 'F');
            None
        }
    } else if letters.len() == 2 && letters[1] == '+' {
        let letter = letters[0];
        assert(letters@ =~= seq![letter, '+']);
        if letter == 'A' {
            assert(letters@ =~= "A+"@);
            Some(GradePoints { nine: 9, four_tenths: 40 })
        } else if letter == 'B' {
            assert(letters@ =~= "B+"@);
            Some(GradePoints { nine: 7, four_tenths: 33 })
        } else if letter == 'C' {
            assert(letters@ =~= "C+"@);
            Some(GradePoints { nine: 5, four_tenths: 23 })
        } else if letter == 'D' {
            assert(letters@ =~= "D+"@);
            Some(GradePoints { nine: 3, four_tenths: 13 })
        } else {
            assert("A+"@[0] == 'A' && "B+"@[0] == 'B' && "C+"@[0] == 'C' && "D+"@[0] == 'D');
            None
        }
    } else {
        assert(letters@.len() == 2 ==> "A+"@[1] == '+' && "B+"@[1] == '+' && "C+"@[1] == '+'
            && "D+"@[1] == '+');
        None
    }
}

/// The text of the credits of `course`: its fourth word, if it has four and
/// the fourth is read as a number.
pub fn credit_text(course: &str) -> (credit: Option<String>)
    ensures
        credit.deep_view() == credit_text_of(course@),
{
    let words = split_chars(&to_chars(course));
    if words.len() >= 4 {
        assert(words.deep_view()[3] == words@[3].deep_view());
        assert(words@[3].deep_view() =~= words@[3]@);
        let word = trim_chars(&words[3]);
        if number_text(&word) {
            Some(from_chars(&word))
        } else {
            None
        }
    } else {
        None
    }
}

/// The terms of the grade point average of `grades`: for each record whose
/// grade is one of the ten letter grades, its points on the two scales and
/// the text of its credits. Fails where such a record has a course of fewer
/// than four words, or one whose fourth word is not read as a number.
pub fn gpa_terms(grades: &[CourseData]) -> (r: Result<Vec<GradeTerm>, GradesError>)
    ensures
        terms_result(r) == gpa_terms_of(grades.deep_view()),
{
    let ghost all = grades.deep_view();
    let mut terms: Vec<GradeTerm> = Vec::new();
    let mut i: usize = 0;
    assert(all.take(0) =~= Seq::<CourseRecord>::empty());
    assert(terms.deep_view() =~= Seq::<TermView>::empty());
    while i < grades.len()
        invariant
            i <= grades.len(),
            all == grades.deep_view(),
            all_weighted(all.take(i as int)),
            terms.deep_view() == graded_terms(all.take(i as int)),
        decreases grades.len() - i,
    {
        let ghost before = terms.deep_view();
        proof {
            assert(all[i as int] == grades@[i as int]@);
            assert(all.take(i + 1).drop_last() =~= all.take(i as int));
            assert(all.take(i + 1).last() == all[i as int]);
        }
        match grade_points(grades[i].grade.as_str()) {
            Some(points) => match credit_text(grades[i].course.as_str()) {
                Some(credit) => {
                    terms.push(GradeTerm { points, credit });
                    assert(terms.deep_view() =~= before.push(
                        TermView { points, credit: credit@ },
                    ));
                },
                None => {
                    assert(!all_weighted(all)) by {
                        assert(grade_points_of(all[i as int].grade) is Some);
                    }
                    return Err(GradesError::CreditParse);
                },
            },
            None => {},
        }
        proof {
            assert forall|k: int|
                0 <= k < i + 1 && grade_points_of(
                    (#[trigger] all.take(i + 1)[k]).grade,
                ) is Some implies credit_text_of(all.take(i + 1)[k].course) is Some by {
                if k < i {
                    assert(all.take(i as int)[k] == all.take(i + 1)[k]);
                }
            }
        }
        i += 1;
    }
    assert(all.take(i as int) =~= all);
    Ok(terms)
}

} // verus!
