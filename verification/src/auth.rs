//! The login: which form is sent for a login page, and whether the reply
//! says that the login succeeded.

use crate::error::GradesError;
use crate::html::{select_attributes, selected_attributes, MAX_TEXT_LEN};
use crate::text::{contains, contains_chars, to_chars};
use vstd::prelude::*;

verus! {

/// A form as a model: its fields in the order in which they are sent, each a
/// name and a value.
pub type Form = Seq<(Seq<char>, Seq<char>)>;

/// What was read of the hidden inputs of a page: for each, its `name` and its
/// `value`, where it has them.
pub type Attributes = Seq<(Option<Seq<char>>, Option<Seq<char>>)>;

/// No two fields of `form` have the same name.
pub open spec fn distinct_names(form: Form) -> bool {
    forall|i: int, j: int| 0 <= i < j < form.len() ==> form[i].0 != form[j].0
}

/// Some field of `form` is called `name`.
pub open spec fn has_name(form: Form, name: Seq<char>) -> bool {
    exists|i: int| 0 <= i < form.len() && form[i].0 == name
}

/// The form as a map from names to values. Where a name stands twice, the
/// later field counts.
pub open spec fn as_map(form: Form) -> Map<Seq<char>, Seq<char>>
    decreases form.len(),
{
    if form.len() == 0 {
        Map::empty()
    } else {
        as_map(form.drop_last()).insert(form.last().0, form.last().1)
    }
}

/// `form` with the field `name` set to `value`: the first field of that name
/// gets the new value and keeps its place; where there is none, the field is
/// added at the end.
pub open spec fn with_field(form: Form, name: Seq<char>, value: Seq<char>) -> Form
    decreases form.len(),
{
    if form.len() == 0 {
        seq![(name, value)]
    } else if form[0].0 == name {
        seq![(name, value)] + form.skip(1)
    } else {
        seq![form[0]] + with_field(form.skip(1), name, value)
    }
}

/// `form` with each of `fields` set, from the first to the last.
pub open spec fn with_fields(form: Form, fields: Form) -> Form
    decreases fields.len(),
{
    if fields.len() == 0 {
        form
    } else {
        with_fields(with_field(form, fields[0].0, fields[0].1), fields.skip(1))
    }
}

/// The three fields that every login sends.
pub open spec fn fixed_fields(username: Seq<char>, password: Seq<char>) -> Form {
    seq![("mli"@, username), ("password"@, password), ("dologin"@, "Login"@)]
}

/// The form of a login: the three fixed fields, then the hidden fields of the
/// login page set over them. A hidden field that is called like an earlier
/// field replaces its value.
pub open spec fn login_fields_of(username: Seq<char>, password: Seq<char>, hidden: Form) -> Form {
    with_fields(fixed_fields(username, password), hidden)
}

/// Every hidden input has both its name and its value.
pub open spec fn complete(attributes: Attributes) -> bool {
    forall|i: int|
        0 <= i < attributes.len() ==> (#[trigger] attributes[i]).0 is Some && attributes[i].1
            is Some
}

/// The hidden inputs as fields.
pub open spec fn as_fields(attributes: Attributes) -> Form {
    attributes.map_values(
        |a: (Option<Seq<char>>, Option<Seq<char>>)|
            (
                match a.0 {
                    Some(name) => name,
                    None => Seq::empty(),
                },
                match a.1 {
                    Some(value) => value,
                    None => Seq::empty(),
                },
            ),
    )
}

/// What `hidden_fields` returns: the fields, or the failure.
pub open spec fn hidden_fields_of(attributes: Attributes) -> Result<Form, GradesError> {
    if complete(attributes) {
        Ok(as_fields(attributes))
    } else {
        Err(GradesError::MalformedPage)
    }
}

/// What `login_form` returns for what the selector found on the login page.
pub open spec fn login_form_of(
    found: Option<Attributes>,
    username: Seq<char>,
    password: Seq<char>,
) -> Result<Form, GradesError> {
    match found {
        None => Err(GradesError::BadSelector),
        Some(attributes) => match hidden_fields_of(attributes) {
            Ok(hidden) => Ok(login_fields_of(username, password, hidden)),
            Err(e) => Err(e),
        },
    }
}

/// The view of a result that holds a form.
pub open spec fn form_result(r: Result<Vec<(String, String)>, GradesError>) -> Result<
    Form,
    GradesError,
> {
    match r {
        Ok(form) => Ok(form.deep_view()),
        Err(e) => Err(e),
    }
}

/// The text that a successful login shows.
pub open spec fn success_marker() -> Seq<char> {
    "You have successfully authenticated"@
}

/// The hidden inputs as fields, where each has a name and a value; otherwise
/// the page is malformed.
pub fn hidden_fields(attributes: &Vec<(Option<String>, Option<String>)>) -> (r: Result<
    Vec<(String, String)>,
    GradesError,
>)
    ensures
        form_result(r) == hidden_fields_of(attributes.deep_view()),
{
    let mut fields: Vec<(String, String)> = Vec::new();
    let mut i: usize = 0;
    assert(fields.deep_view() =~= as_fields(attributes.deep_view()).take(0));
    while i < attributes.len()
        invariant
            i <= attributes.len(),
            complete(attributes.deep_view().take(i as int)),
            fields.deep_view() == as_fields(attributes.deep_view()).take(i as int),
        decreases attributes.len() - i,
    {
        let ghost before = fields.deep_view();
        let ghost all = attributes.deep_view();
        assert(all[i as int] == attributes@[i as int].deep_view());
        match &attributes[i] {
            (Some(name), Some(value)) => {
                fields.push((name.clone(), value.clone()));
                proof {
                    assert(fields.deep_view() =~= before.push((name@, value@)));
                    assert(as_fields(all).take(i + 1) =~= as_fields(all).take(i as int).push(
                        (name@, value@),
                    ));
                    assert forall|k: int| 0 <= k < i + 1 implies (#[trigger] all.take(i + 1)[k]).0
                        is Some && all.take(i + 1)[k].1 is Some by {
                        if k < i {
                            assert(all.take(i as int)[k] == all.take(i + 1)[k]);
                        }
                    }
                }
            },
            _ => {
                assert(!(all[i as int].0 is Some && all[i as int].1 is Some));
                return Err(GradesError::MalformedPage);
            },
        }
        i += 1;
    }
    assert(attributes.deep_view().take(i as int) =~= attributes.deep_view());
    assert(as_fields(attributes.deep_view()).take(i as int) =~= as_fields(
        attributes.deep_view(),
    ));
    Ok(fields)
}

/// Where the first field called `name` stands at index `i`, setting the
/// field replaces the value there.
pub proof fn lemma_with_field_found(form: Form, name: Seq<char>, value: Seq<char>, i: int)
    requires
        0 <= i < form.len(),
        form[i].0 == name,
        forall|k: int| 0 <= k < i ==> form[k].0 != name,
    ensures
        with_field(form, name, value) == form.update(i, (name, value)),
    decreases i,
{
    if i == 0 {
        assert(seq![(name, value)] + form.skip(1) =~= form.update(0, (name, value)));
    } else {
        let rest = form.skip(1);
        assert(rest[i - 1] == form[i]);
        assert forall|k: int| 0 <= k < i - 1 implies rest[k].0 != name by {
            assert(rest[k] == form[k + 1]);
        }
        lemma_with_field_found(rest, name, value, i - 1);
        assert(seq![form[0]] + rest.update(i - 1, (name, value)) =~= form.update(
            i,
            (name, value),
        ));
    }
}

/// Where no field is called `name`, setting the field adds it at the end.
pub proof fn lemma_with_field_absent(form: Form, name: Seq<char>, value: Seq<char>)
    requires
        !has_name(form, name),
    ensures
        with_field(form, name, value) == form.push((name, value)),
    decreases form.len(),
{
    if form.len() == 0 {
        assert(seq![(name, value)] =~= form.push((name, value)));
    } else {
        let rest = form.skip(1);
        assert(form[0].0 != name);
        assert(!has_name(rest, name)) by {
            if has_name(rest, name) {
                let k = choose|k: int| 0 <= k < rest.len() && rest[k].0 == name;
                assert(form[k + 1].0 == name);
            }
        }
        lemma_with_field_absent(rest, name, value);
        assert(seq![form[0]] + rest.push((name, value)) =~= form.push((name, value)));
    }
}

/// Sets the field `name` of `form` to `value`: the first field of that name
/// gets the new value, and where there is none the field is added at the end.
pub fn set_field(form: &mut Vec<(String, String)>, name: String, value: String)
    ensures
        final(form).deep_view() == with_field(old(form).deep_view(), name@, value@),
{
    let ghost before = form.deep_view();
    let mut i: usize = 0;
    while i < form.len()
        invariant
            i <= form.len(),
            before == old(form).deep_view(),
            form.deep_view() == before,
            forall|k: int| 0 <= k < i ==> before[k].0 != name@,
        decreases form.len() - i,
    {
        assert(before[i as int] == form@[i as int].deep_view());
        if form[i].0 == name {
            form.set(i, (name, value));
            proof {
                lemma_with_field_found(before, name@, value@, i as int);
                assert(form.deep_view() =~= before.update(i as int, (name@, value@)));
            }
            return ;
        }
        i += 1;
    }
    form.push((name, value));
    proof {
        lemma_with_field_absent(before, name@, value@);
        assert(form.deep_view() =~= before.push((name@, value@)));
    }
}

/// The form of a login: the fields `mli`, `password` and `dologin`, then the
/// hidden fields set over them in their order.
pub fn login_fields(username: &str, password: &str, hidden: &Vec<(String, String)>) -> (form: Vec<
    (String, String),
>)
    ensures
        form.deep_view() == login_fields_of(username@, password@, hidden.deep_view()),
{
    let mut form: Vec<(String, String)> = Vec::new();
    form.push(("mli".to_owned(), username.to_owned()));
    form.push(("password".to_owned(), password.to_owned()));
    form.push(("dologin".to_owned(), "Login".to_owned()));
    assert(form.deep_view() =~= fixed_fields(username@, password@));
    let ghost all = hidden.deep_view();
    let mut i: usize = 0;
    assert(all.skip(0) =~= all);
    while i < hidden.len()
        invariant
            i <= hidden.len(),
            all == hidden.deep_view(),
            with_fields(form.deep_view(), all.skip(i as int)) == login_fields_of(
                username@,
                password@,
                all,
            ),
        decreases hidden.len() - i,
    {
        assert(all[i as int] == hidden@[i as int].deep_view());
        assert(all.skip(i as int)[0] == all[i as int]);
        assert(all.skip(i as int).skip(1) =~= all.skip(i + 1));
        set_field(&mut form, hidden[i].0.clone(), hidden[i].1.clone());
        i += 1;
    }
    form
}

/// The form of a login for what the selector found on the login page: the
/// failure where the selector was refused or a hidden input is incomplete,
/// else the fixed fields with the hidden fields set over them.
pub fn login_form_from(
    found: &Option<Vec<(Option<String>, Option<String>)>>,
    username: &str,
    password: &str,
) -> (r: Result<Vec<(String, String)>, GradesError>)
    ensures
        form_result(r) == login_form_of(found.deep_view(), username@, password@),
{
    match found {
        None => Err(GradesError::BadSelector),
        Some(attributes) => match hidden_fields(attributes) {
            Ok(hidden) => Ok(login_fields(username, password, &hidden)),
            Err(e) => Err(e),
        },
    }
}

/// What `login_form` returns for the login page `page`: the failure where
/// the page is longer than the parser takes, else what follows from the
/// inputs of type `hidden` that the parser finds on it, with their `name` and
/// `value`.
pub open spec fn login_form_for(
    page: Seq<char>,
    username: Seq<char>,
    password: Seq<char>,
) -> Result<Form, GradesError> {
    if page.len() > MAX_TEXT_LEN {
        Err(GradesError::PageTooLong)
    } else {
        login_form_of(
            selected_attributes(page, "input[type='hidden']"@, "name"@, "value"@),
            username,
            password,
        )
    }
}

/// The form of a login for the login page `page`: its inputs of type
/// `hidden` are read with their `name` and `value`, and set over the fixed
/// fields. A page of more than `MAX_TEXT_LEN` characters is not parsed.
pub fn login_form(page: &str, username: &str, password: &str) -> (r: Result<
    Vec<(String, String)>,
    GradesError,
>)
    ensures
        form_result(r) == login_form_for(page@, username@, password@),
{
    if page.unicode_len() > MAX_TEXT_LEN {
        return Err(GradesError::PageTooLong);
    }
    proof {
        reveal_strlit("input[type='hidden']");
        reveal_strlit("name");
        reveal_strlit("value");
    }
    let found = select_attributes(page, "input[type='hidden']", "name", "value");
    login_form_from(&found, username, password)
}

/// Whether the reply to a login says that it succeeded: it does where the
/// marker stands in it, letter for letter.
pub fn is_authenticated(reply: &str) -> (yes: bool)
    ensures
        yes == contains(reply@, success_marker()),
{
    contains_chars(&to_chars(reply), &to_chars("You have successfully authenticated"))
}

/// Setting a field keeps the names of a form distinct.
pub proof fn lemma_with_field_distinct(form: Form, name: Seq<char>, value: Seq<char>)
    requires
        distinct_names(form),
    ensures
        distinct_names(with_field(form, name, value)),
        with_field(form, name, value).len() == form.len() + if has_name(form, name) {
            0int
        } else {
            1int
        },
{
    if has_name(form, name) {
        let first = choose|i: int| 0 <= i < form.len() && form[i].0 == name;
        assert forall|k: int| 0 <= k < first implies form[k].0 != name by {}
        lemma_with_field_found(form, name, value, first);
    } else {
        lemma_with_field_absent(form, name, value);
        let after = form.push((name, value));
        assert forall|i: int, j: int| 0 <= i < j < after.len() implies after[i].0
            != after[j].0 by {
            if j == form.len() {
                assert(form[i].0 != name);
            }
        }
    }
}

/// In the map of a form, a field that no later field repeats has its own
/// value.
pub proof fn lemma_as_map_last_wins(form: Form, i: int)
    requires
        0 <= i < form.len(),
        forall|j: int| i < j < form.len() ==> form[j].0 != form[i].0,
    ensures
        as_map(form).contains_key(form[i].0),
        as_map(form)[form[i].0] == form[i].1,
    decreases form.len(),
{
    if i < form.len() - 1 {
        let front = form.drop_last();
        assert(front[i] == form[i]);
        assert forall|j: int| i < j < front.len() implies front[j].0 != front[i].0 by {
            assert(front[j] == form[j]);
        }
        lemma_as_map_last_wins(front, i);
    }
}

/// The map of a form holds exactly the names of its fields.
pub proof fn lemma_as_map_names(form: Form, name: Seq<char>)
    ensures
        as_map(form).contains_key(name) <==> has_name(form, name),
    decreases form.len(),
{
    if form.len() > 0 {
        let front = form.drop_last();
        lemma_as_map_names(front, name);
        if has_name(front, name) {
            let k = choose|k: int| 0 <= k < front.len() && front[k].0 == name;
            assert(form[k].0 == name);
        }
        if has_name(form, name) && name != form.last().0 {
            let k = choose|k: int| 0 <= k < form.len() && form[k].0 == name;
            assert(front[k].0 == name);
        }
        if name == form.last().0 {
            assert(form[form.len() - 1].0 == name);
        }
    }
}

/// Setting a field of a form with distinct names sets it in the form's map.
pub proof fn lemma_with_field_map(form: Form, name: Seq<char>, value: Seq<char>)
    requires
        distinct_names(form),
    ensures
        as_map(with_field(form, name, value)) == as_map(form).insert(name, value),
{
    let after = with_field(form, name, value);
    lemma_with_field_distinct(form, name, value);
    if has_name(form, name) {
        let first = choose|i: int| 0 <= i < form.len() && form[i].0 == name;
        assert forall|k: int| 0 <= k < first implies form[k].0 != name by {}
        lemma_with_field_found(form, name, value, first);
        let target = as_map(form).insert(name, value);
        assert forall|n: Seq<char>| as_map(after).contains_key(n) <==> target.contains_key(
            n,
        ) by {
            lemma_as_map_names(form, n);
            lemma_as_map_names(after, n);
            if has_name(after, n) {
                let k = choose|k: int| 0 <= k < after.len() && after[k].0 == n;
                assert(form[k].0 == n);
            }
            if has_name(form, n) {
                let k = choose|k: int| 0 <= k < form.len() && form[k].0 == n;
                assert(after[k].0 == n);
            }
            if n == name {
                assert(after[first].0 == n);
            }
        }
        assert forall|n: Seq<char>| as_map(after).contains_key(n) implies as_map(after)[n]
            == target[n] by {
            lemma_as_map_names(after, n);
            let k = choose|k: int| 0 <= k < after.len() && after[k].0 == n;
            assert forall|j: int| k < j < after.len() implies (#[trigger] after[j]).0
                != after[k].0 by {}
            lemma_as_map_last_wins(after, k);
            if k != first {
                assert(form[k] == after[k]);
                assert forall|j: int| k < j < form.len() implies (#[trigger] form[j]).0
                    != form[k].0 by {}
                lemma_as_map_last_wins(form, k);
            }
        }
        assert(as_map(after) =~= target);
    } else {
        lemma_with_field_absent(form, name, value);
        assert(after.drop_last() =~= form);
    }
}

/// Two forms with the same map keep the same map when the same fields are
/// put behind both.
pub proof fn lemma_as_map_append(a: Form, b: Form, tail: Form)
    requires
        as_map(a) == as_map(b),
    ensures
        as_map(a + tail) == as_map(b + tail),
    decreases tail.len(),
{
    if tail.len() == 0 {
        assert(a + tail =~= a);
        assert(b + tail =~= b);
    } else {
        lemma_as_map_append(a, b, tail.drop_last());
        assert((a + tail).drop_last() =~= a + tail.drop_last());
        assert((b + tail).drop_last() =~= b + tail.drop_last());
    }
}

/// Setting fields over a form with distinct names keeps the names distinct,
/// and gives the map of the form with the fields put behind it: of two
/// fields of one name, the later one counts.
pub proof fn lemma_with_fields_map(form: Form, fields: Form)
    requires
        distinct_names(form),
    ensures
        distinct_names(with_fields(form, fields)),
        as_map(with_fields(form, fields)) == as_map(form + fields),
    decreases fields.len(),
{
    if fields.len() == 0 {
        assert(form + fields =~= form);
    } else {
        let next = with_field(form, fields[0].0, fields[0].1);
        lemma_with_field_distinct(form, fields[0].0, fields[0].1);
        lemma_with_field_map(form, fields[0].0, fields[0].1);
        lemma_with_fields_map(next, fields.skip(1));
        assert(form.push(fields[0]).drop_last() =~= form);
        lemma_as_map_append(next, form.push(fields[0]), fields.skip(1));
        assert(form.push(fields[0]) + fields.skip(1) =~= form + fields);
    }
}

/// Fields whose names are new to a form, and differ from each other, are all
/// added behind it when they are set.
pub proof fn lemma_with_fields_new(form: Form, fields: Form)
    requires
        distinct_names(fields),
        forall|i: int| 0 <= i < fields.len() ==> !has_name(form, #[trigger] fields[i].0),
    ensures
        with_fields(form, fields) == form + fields,
    decreases fields.len(),
{
    if fields.len() == 0 {
        assert(form + fields =~= form);
    } else {
        let head = fields[0];
        let rest = fields.skip(1);
        let next = form.push(head);
        assert(!has_name(form, fields[0].0));
        lemma_with_field_absent(form, head.0, head.1);
        assert forall|i: int, j: int| 0 <= i < j < rest.len() implies rest[i].0
            != rest[j].0 by {
            assert(rest[i] == fields[i + 1] && rest[j] == fields[j + 1]);
        }
        assert forall|i: int| 0 <= i < rest.len() implies !has_name(
            next,
            #[trigger] rest[i].0,
        ) by {
            assert(rest[i] == fields[i + 1]);
            assert(!has_name(form, fields[i + 1].0));
            if has_name(next, rest[i].0) {
                let k = choose|k: int| 0 <= k < next.len() && next[k].0 == rest[i].0;
                if k < form.len() {
                    assert(form[k].0 == rest[i].0);
                } else {
                    assert(fields[0].0 != fields[i + 1].0);
                }
            }
        }
        lemma_with_fields_new(next, rest);
        assert(next + rest =~= form + fields);
    }
}

/// The three fixed fields have three different names.
pub proof fn lemma_fixed_fields_distinct(username: Seq<char>, password: Seq<char>)
    ensures
        distinct_names(fixed_fields(username, password)),
        fixed_fields(username, password).len() == 3,
{
    reveal_strlit("mli");
    reveal_strlit("password");
    reveal_strlit("dologin");
    assert("mli"@.len() == 3 && "password"@.len() == 8 && "dologin"@.len() == 7);
}

/// In a login form no name stands twice, and as a map it is the three fixed
/// fields overridden by the hidden fields: a hidden field that no later
/// hidden field repeats has its own value in the form, also where it is
/// called like a fixed field.
pub proof fn lemma_login_fields_override(
    username: Seq<char>,
    password: Seq<char>,
    hidden: Form,
)
    ensures
        distinct_names(login_fields_of(username, password, hidden)),
        as_map(login_fields_of(username, password, hidden)) == as_map(
            fixed_fields(username, password) + hidden,
        ),
        forall|i: int|
            0 <= i < hidden.len() && (forall|j: int|
                i < j < hidden.len() ==> hidden[j].0 != hidden[i].0) ==> {
                &&& as_map(login_fields_of(username, password, hidden)).contains_key(
                    #[trigger] hidden[i].0,
                )
                &&& as_map(login_fields_of(username, password, hidden))[hidden[i].0]
                    == hidden[i].1
            },
{
    let fixed = fixed_fields(username, password);
    lemma_fixed_fields_distinct(username, password);
    lemma_with_fields_map(fixed, hidden);
    let all = fixed + hidden;
    assert forall|i: int|
        0 <= i < hidden.len() && (forall|j: int|
            i < j < hidden.len() ==> hidden[j].0 != hidden[i].0) implies {
            &&& as_map(all).contains_key(#[trigger] hidden[i].0)
            &&& as_map(all)[hidden[i].0] == hidden[i].1
        } by {
        assert(all[3 + i] == hidden[i]);
        assert forall|j: int| 3 + i < j < all.len() implies (#[trigger] all[j]).0 != all[3 + i].0 by {
            assert(all[j] == hidden[j - 3]);
        }
        lemma_as_map_last_wins(all, 3 + i);
    }
}

/// A form with distinct names has as many fields as its map has names.
pub proof fn lemma_distinct_names_count(form: Form)
    requires
        distinct_names(form),
    ensures
        as_map(form).dom().finite(),
        as_map(form).dom().len() == form.len(),
    decreases form.len(),
{
    if form.len() > 0 {
        let front = form.drop_last();
        assert forall|i: int, j: int| 0 <= i < j < front.len() implies front[i].0
            != front[j].0 by {
            assert(front[i] == form[i] && front[j] == form[j]);
        }
        lemma_distinct_names_count(front);
        lemma_as_map_names(front, form.last().0);
        if has_name(front, form.last().0) {
            let k = choose|k: int| 0 <= k < front.len() && front[k].0 == form.last().0;
            assert(form[k].0 == form[form.len() - 1].0);
        }
        assert(as_map(form).dom() =~= as_map(front).dom().insert(form.last().0));
    }
}

/// A login form has one field for each name that stands among the three
/// fixed fields and the hidden fields, however often the name stands there.
pub proof fn lemma_login_fields_names(username: Seq<char>, password: Seq<char>, hidden: Form)
    ensures
        as_map(fixed_fields(username, password) + hidden).dom().finite(),
        login_fields_of(username, password, hidden).len() == as_map(
            fixed_fields(username, password) + hidden,
        ).dom().len(),
{
    lemma_login_fields_override(username, password, hidden);
    lemma_distinct_names_count(login_fields_of(username, password, hidden));
}

/// Where the hidden fields have names that differ from each other and from
/// `mli`, `password` and `dologin`, the login form holds the three fixed
/// fields and then the hidden fields as they came: three more fields than
/// there are hidden ones.
pub proof fn lemma_login_fields_count(username: Seq<char>, password: Seq<char>, hidden: Form)
    requires
        distinct_names(hidden),
        forall|i: int|
            0 <= i < hidden.len() ==> (#[trigger] hidden[i]).0 != "mli"@ && hidden[i].0
                != "password"@ && hidden[i].0 != "dologin"@,
    ensures
        login_fields_of(username, password, hidden) == fixed_fields(username, password)
            + hidden,
        login_fields_of(username, password, hidden).len() == hidden.len() + 3,
{
    let fixed = fixed_fields(username, password);
    assert forall|i: int| 0 <= i < hidden.len() implies !has_name(
        fixed,
        #[trigger] hidden[i].0,
    ) by {
        assert(hidden[i].0 != "mli"@);
        if has_name(fixed, hidden[i].0) {
            let k = choose|k: int| 0 <= k < fixed.len() && fixed[k].0 == hidden[i].0;
            assert(k == 0 || k == 1 || k == 2);
        }
    }
    lemma_with_fields_new(fixed, hidden);
}

} // verus!
