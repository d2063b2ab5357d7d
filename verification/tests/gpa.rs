use grades_list::error::GradesError;
use grades_list::gpa::{credit_text, gpa_terms, grade_points, GradePoints, GradeTerm};
use grades_list::scrape::CourseData;

fn graded(course: &str, grade: &str) -> CourseData {
    CourseData {
        session: "FW21".to_owned(),
        course: course.to_owned(),
        title: "A course".to_owned(),
        grade: grade.to_owned(),
    }
}

fn points(nine: u8, four_tenths: u8) -> Option<GradePoints> {
    Some(GradePoints { nine, four_tenths })
}

/// The two averages of the terms: four points first, then nine points.
fn averages(terms: &[GradeTerm]) -> (f32, f32) {
    let mut credits = 0.0f32;
    let mut nine = 0.0f32;
    let mut four = 0.0f32;
    for term in terms {
        let credit = term.credit.parse::<f32>().unwrap();
        nine += f32::from(term.points.nine) * credit;
        four += f32::from(term.points.four_tenths) / 10.0 * credit;
        credits += credit;
    }
    (four / credits, nine / credits)
}

#[test]
fn the_ten_letter_grades() {
    assert_eq!(grade_points("A+"), points(9, 40));
    assert_eq!(grade_points("A"), points(8, 38));
    assert_eq!(grade_points("B+"), points(7, 33));
    assert_eq!(grade_points("B"), points(6, 30));
    assert_eq!(grade_points("C+"), points(5, 23));
    assert_eq!(grade_points("C"), points(4, 20));
    assert_eq!(grade_points("D+"), points(3, 13));
    assert_eq!(grade_points("D"), points(2, 10));
    assert_eq!(grade_points("E"), points(1, 7));
    assert_eq!(grade_points("F"), points(0, 0));
}

#[test]
fn other_grades_do_not_count() {
    for g in ["", "IP", "DEF", "W", "a", "A-", "E+", "F+", "G", "A++", " A", "A ", "+", "P"] {
        assert_eq!(grade_points(g), None, "{:?}", g);
    }
}

#[test]
fn tenths_are_the_four_point_values() {
    let four = [("A+", 4.0f32), ("A", 3.8), ("B+", 3.3), ("B", 3.0), ("C+", 2.3), ("C", 2.0),
        ("D+", 1.3), ("D", 1.0), ("E", 0.7), ("F", 0.0)];
    for (g, value) in four {
        let p = grade_points(g).unwrap();
        assert_eq!(f32::from(p.four_tenths) / 10.0, value, "{}", g);
    }
}

#[test]
fn credits_are_the_fourth_word() {
    assert_eq!(credit_text("AP MATH 1000 3.00"), Some("3.00".to_owned()));
    assert_eq!(credit_text("  LE   EECS\t2030 \n 6.00  A extra"), Some("6.00".to_owned()));
    assert_eq!(credit_text("a b c \u{A0}1.5\u{A0}"), Some("1.5".to_owned()));
    assert_eq!(credit_text("a b c 1e2"), Some("1e2".to_owned()));
    assert_eq!(credit_text("a b c -inf"), Some("-inf".to_owned()));
}

#[test]
fn course_of_fewer_than_four_words_has_no_credits() {
    assert_eq!(credit_text(""), None);
    assert_eq!(credit_text("AP/MATH 1000 3.00"), None);
    assert_eq!(credit_text("X 1.00"), None);
    assert_eq!(credit_text("a\u{A0}b c d"), None);
}

#[test]
fn fourth_word_that_is_no_number_is_no_credit() {
    assert_eq!(credit_text("a b c d"), None);
    assert_eq!(credit_text("AP MATH 1000 3,00"), None);
    assert_eq!(credit_text("AP MATH 1000 three"), None);
    assert_eq!(credit_text("AP MATH 1000 3.00x 3.00"), None);
    assert_eq!(credit_text("AP MATH 1000 \u{A0}"), None);
}

#[test]
fn gpa_of_two_courses_of_equal_weight() {
    let records = vec![graded("AP MATH 1000 3.00", "A+"), graded("AP MATH 2000 3.00", "B")];
    let terms = gpa_terms(&records).unwrap();
    assert_eq!(
        terms,
        vec![
            GradeTerm { points: GradePoints { nine: 9, four_tenths: 40 }, credit: "3.00".to_owned() },
            GradeTerm { points: GradePoints { nine: 6, four_tenths: 30 }, credit: "3.00".to_owned() },
        ]
    );
    let (four, nine) = averages(&terms);
    assert_eq!(nine, 7.5);
    assert_eq!(four, 3.5);
}

#[test]
fn gpa_weighs_by_credits() {
    let records = vec![graded("AP MATH 1000 6.00", "A"), graded("AP MATH 2000 3.00", "C")];
    let terms = gpa_terms(&records).unwrap();
    let (four, nine) = averages(&terms);
    assert_eq!(nine, (8.0 * 6.0 + 4.0 * 3.0) / 9.0);
    assert_eq!(four, (3.8f32 * 6.0 + 2.0 * 3.0) / 9.0);
}

#[test]
fn course_code_of_three_words_is_a_credit_parse_error() {
    let records = vec![graded("AP/MATH 1000 3.00", "A+"), graded("AP/MATH 2000 3.00", "B")];
    assert_eq!(gpa_terms(&records), Err(GradesError::CreditParse));
}

#[test]
fn unrecognized_grade_is_excluded() {
    let records = vec![graded("X 1.00", "IP")];
    let terms = gpa_terms(&records).unwrap();
    assert!(terms.is_empty());
    let (four, nine) = averages(&terms);
    assert!(four.is_nan());
    assert!(nine.is_nan());
}

#[test]
fn unrecognized_grades_add_nothing_to_the_sums() {
    let records = vec![
        graded("AP MATH 1000 3.00", "A+"),
        graded("no credits here", "W"),
        graded("AP MATH 3000 9.00", "DEF"),
        graded("AP MATH 2000 3.00", "B"),
    ];
    let terms = gpa_terms(&records).unwrap();
    assert_eq!(terms.len(), 2);
    assert_eq!(terms[0].points.nine, 9);
    assert_eq!(terms[1].points.nine, 6);
    let (four, nine) = averages(&terms);
    assert_eq!(nine, 7.5);
    assert_eq!(four, 3.5);
}

#[test]
fn no_records_no_terms() {
    assert_eq!(gpa_terms(&[]), Ok(Vec::new()));
}

#[test]
fn graded_record_without_credits_fails() {
    let records = vec![graded("AP MATH 1000 3.00", "A"), graded("AP MATH", "F")];
    assert_eq!(gpa_terms(&records), Err(GradesError::CreditParse));
    let first = vec![graded("", "E"), graded("AP MATH 1000 3.00", "A")];
    assert_eq!(gpa_terms(&first), Err(GradesError::CreditParse));
    let no_number = vec![graded("AP MATH 1000 3.00", "A"), graded("AP MATH 1000 many", "B+")];
    assert_eq!(gpa_terms(&no_number), Err(GradesError::CreditParse));
    let not_counted = vec![graded("AP MATH 1000 many", "IP"), graded("AP MATH 1000 3.00", "A")];
    assert_eq!(gpa_terms(&not_counted).map(|t| t.len()), Ok(1));
}
