use vstd::prelude::*;

use crate::question::{Question, QuestionView, views};
use crate::week::{decimal, week_name};

verus! {

/// The JSON string literal that serde_json writes for a string.
pub uninterp spec fn json_quoted(s: Seq<char>) -> Seq<char>;

/// Relies on `serde_json::to_string` on a string slice: the JSON string
/// literal (quotes and escapes included) that stands for `s`, which depends on
/// the characters of `s` alone. A string slice serializes without failure
/// into the byte vector that `to_string` writes to.
#[verifier::external_body]
fn json_string(s: &str) -> (r: Result<String, serde_json::Error>)
    ensures
        r is Ok,
        r matches Ok(t) ==> t@ == json_quoted(s@),
{
    serde_json::to_string(s)
}

/// The text of one question in a partition file, given the JSON literals of
/// its user and its text: an object of three fields, indented by two spaces
/// inside the list and by four for its fields.
pub open spec fn question_frame(user_lit: Seq<char>, week: u8, text_lit: Seq<char>) -> Seq<char> {
    "  {\n    \"user\": "@ + user_lit + ",\n    \"week\": "@ + decimal(week) + ",\n    \"text\": "@
        + text_lit + "\n  }"@
}

/// The text of one question in a partition file.
pub open spec fn question_text(q: QuestionView) -> Seq<char> {
    question_frame(json_quoted(q.user), q.week, json_quoted(q.text))
}

/// Items of a list in a partition file, one after another, separated by `,`
/// and a line break.
pub open spec fn joined(items: Seq<Seq<char>>) -> Seq<char>
    decreases items.len(),
{
    if items.len() == 0 {
        Seq::empty()
    } else if items.len() == 1 {
        items[0]
    } else {
        joined(items.drop_last()) + ",\n"@ + items.last()
    }
}

/// A JSON list of already written items, one item after each line break;
/// `[]` when there are none.
pub open spec fn list_frame(items: Seq<Seq<char>>) -> Seq<char> {
    if items.len() == 0 {
        "[]"@
    } else {
        "[\n"@ + joined(items) + "\n]"@
    }
}

pub open spec fn texts(v: Seq<String>) -> Seq<Seq<char>> {
    v.map_values(|s: String| s@)
}

/// The text of a partition file that holds `qs`, in order.
pub open spec fn partition_text(qs: Seq<QuestionView>) -> Seq<char> {
    list_frame(qs.map_values(|q: QuestionView| question_text(q)))
}

/// The text of one question in a partition file, from the JSON literals of
/// its user and its text.
pub fn frame_question(user_lit: &str, week: u8, text_lit: &str) -> (r: String)
    ensures
        r@ == question_frame(user_lit@, week, text_lit@),
{
    let mut s = String::from_str("  {\n    \"user\": ");
    s.append(user_lit);
    s.append(",\n    \"week\": ");
    let w = week_name(week);
    s.append(w.as_str());
    s.append(",\n    \"text\": ");
    s.append(text_lit);
    s.append("\n  }");
    s
}

/// The JSON list of the already written `items`.
pub fn frame_partition(items: &Vec<String>) -> (r: String)
    ensures
        r@ == list_frame(texts(items@)),
{
    if items.len() == 0 {
        return String::from_str("[]");
    }
    let ghost all = texts(items@);
    let mut s = String::from_str("[\n");
    s.append(items[0].as_str());
    let mut i: usize = 1;
    assert(all.take(1) =~= seq![items@[0]@]);
    while i < items.len()
        invariant
            1 <= i <= items.len(),
            all == texts(items@),
            s@ == "[\n"@ + joined(all.take(i as int)),
        decreases items.len() - i,
    {
        s.append(",\n");
        s.append(items[i].as_str());
        proof {
            let t = all.take(i + 1);
            assert(t.drop_last() =~= all.take(i as int));
            assert(t.last() == items@[i as int]@);
            assert(s@ =~= "[\n"@ + joined(t));
        }
        i += 1;
    }
    assert(all.take(items.len() as int) =~= all);
    s.append("\n]");
    s
}

/// The text of the partition file that holds `qs`, in order.
pub fn encode_questions(qs: &Vec<Question>) -> (r: Result<String, serde_json::Error>)
    ensures
        r is Ok,
        r matches Ok(t) ==> t@ == partition_text(views(qs@)),
{
    let ghost want = views(qs@).map_values(|q: QuestionView| question_text(q));
    let mut items: Vec<String> = Vec::new();
    let mut i: usize = 0;
    while i < qs.len()
        invariant
            i <= qs.len(),
            want == views(qs@).map_values(|q: QuestionView| question_text(q)),
            texts(items@) =~= want.take(i as int),
        decreases qs.len() - i,
    {
        let user_lit = match json_string(qs[i].user.as_str()) {
            Ok(t) => t,
            Err(e) => {
                return Err(e);
            },
        };
        let text_lit = match json_string(qs[i].text.as_str()) {
            Ok(t) => t,
            Err(e) => {
                return Err(e);
            },
        };
        let item = frame_question(user_lit.as_str(), qs[i].week, text_lit.as_str());
        let ghost prev = items@;
        assert(want[i as int] == question_text(qs@[i as int]@));
        assert(item@ == want[i as int]);
        items.push(item);
        assert(texts(items@) =~= texts(prev).push(want[i as int]));
        assert(want.take(i + 1) =~= want.take(i as int).push(want[i as int]));
        i += 1;
    }
    assert(want.take(qs.len() as int) =~= want);
    Ok(frame_partition(&items))
}

} // verus!
