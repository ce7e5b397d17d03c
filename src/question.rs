use vstd::prelude::*;

verus! {

/// One stored question: who asked it, in which week, and what it says.
#[derive(Clone, Debug)]
pub struct Question {
    pub user: String,
    pub week: u8,
    pub text: String,
}

/// The mathematical value of a `Question`.
pub struct QuestionView {
    pub user: Seq<char>,
    pub week: u8,
    pub text: Seq<char>,
}

impl View for Question {
    type V = QuestionView;

    open spec fn view(&self) -> QuestionView {
        QuestionView { user: self.user@, week: self.week, text: self.text@ }
    }
}

/// The values of a sequence of questions.
pub open spec fn views(qs: Seq<Question>) -> Seq<QuestionView> {
    qs.map_values(|q: Question| q@)
}

impl Question {
    pub fn new(user: String, week: u8, text: String) -> (r: Question)
        ensures
            r@ == (QuestionView { user: user@, week, text: text@ }),
    {
        Question { user, week, text }
    }

    /// Whether the question belongs to the partition of `user` and `week`.
    pub open spec fn belongs_to(self, user: Seq<char>, week: u8) -> bool {
        self.user@ == user && self.week == week
    }
}

impl PartialEq for Question {
    fn eq(&self, o: &Question) -> (r: bool) {
        self.user == o.user && self.week == o.week && self.text == o.text
    }
}

impl vstd::std_specs::cmp::PartialEqSpecImpl for Question {
    open spec fn obeys_eq_spec() -> bool {
        true
    }

    open spec fn eq_spec(&self, o: &Question) -> bool {
        self@ == o@
    }
}

} // verus!
