//! The schema-driven record builder.
//!
//! A record is assembled field by field in the fixed order Name,
//! Amount, Date, Category.  Each step fires only when the schema
//! carries that field under the matching kind; any other entry is
//! silently skipped.  The name step retains the category recorded
//! for the entered name as the preselection hint for the category
//! step; the date step records the chosen date as the session's new
//! default.

use vstd::prelude::*;

use crate::calc::spec_calc;
use crate::calc::CalcError;
use crate::calc::Expr;
use crate::calc::Plan;
use crate::history::NameHistoryIndex;
use crate::session::Day;
use crate::session::SessionState;
use crate::text::lower_of;
use crate::text::opt_text;

verus! {

/// The kind of a schema field, as far as the builder recognizes it;
/// everything else is `Other` and is skipped.
#[derive(Debug)]
pub enum FieldKind {
    Title,
    Number,
    Date,
    Relation { target: String },
    Other,
}

/// The schema entries for the four recognized field names, as the
/// run's externally supplied schema carries them.
#[derive(Debug)]
pub struct Schema {
    pub name: Option<FieldKind>,
    pub amount: Option<FieldKind>,
    pub date: Option<FieldKind>,
    pub category: Option<FieldKind>,
}

/// A recognized field name.
#[derive(Clone, Copy, Debug, PartialEq, Eq, Structural)]
pub enum FieldName {
    Name,
    Amount,
    Date,
    Category,
}

/// The value assembled for one field, shaped for the remote record:
/// title text, an evaluated amount, a calendar date, or a relation
/// reference.
#[derive(Debug)]
pub enum FieldValue {
    Title(String),
    Number(Expr),
    Date(Day),
    Relation(String),
}

/// Which step of the fixed field sequence comes next.
#[derive(Clone, Copy, Debug, PartialEq, Eq, Structural)]
pub enum Stage {
    AtName,
    AtAmount,
    AtDate,
    AtCategory,
    Done,
}

pub open spec fn wants_title(f: Option<FieldKind>) -> bool {
    f matches Some(FieldKind::Title)
}

pub open spec fn wants_number(f: Option<FieldKind>) -> bool {
    f matches Some(FieldKind::Number)
}

pub open spec fn wants_date(f: Option<FieldKind>) -> bool {
    f matches Some(FieldKind::Date)
}

pub open spec fn wants_relation(f: Option<FieldKind>) -> bool {
    f matches Some(FieldKind::Relation { target: _ })
}

pub open spec fn stage_past_name(s: Stage) -> bool {
    s != Stage::AtName
}

pub open spec fn stage_past_amount(s: Stage) -> bool {
    s == Stage::AtDate || s == Stage::AtCategory || s == Stage::Done
}

pub open spec fn stage_past_date(s: Stage) -> bool {
    s == Stage::AtCategory || s == Stage::Done
}

/// Whether the assembled record carries a field of the given name.
pub open spec fn has_field(fs: Seq<(FieldName, FieldValue)>, n: FieldName) -> bool {
    exists|i: int| 0 <= i < fs.len() && (#[trigger] fs[i]).0 == n
}

proof fn lemma_has_field_push(fs: Seq<(FieldName, FieldValue)>, x: (FieldName, FieldValue), n: FieldName)
    ensures
        has_field(fs.push(x), n) == (has_field(fs, n) || x.0 == n),
{
    if has_field(fs, n) {
        let i = choose|i: int| 0 <= i < fs.len() && (#[trigger] fs[i]).0 == n;
        assert(fs.push(x)[i].0 == n);
    }
    if x.0 == n {
        assert(fs.push(x)[fs.len() as int].0 == n);
    }
    if has_field(fs.push(x), n) && x.0 != n && !has_field(fs, n) {
        let i = choose|i: int| 0 <= i < fs.push(x).len() && (#[trigger] fs.push(x)[i]).0 == n;
        assert(fs[i].0 == n);
    }
}

/// The abstract state of a builder.
pub ghost struct BuilderView {
    pub schema: Schema,
    pub stage: Stage,
    pub fields: Seq<(FieldName, FieldValue)>,
    pub hint: Option<Seq<char>>,
}

/// The builder's invariant, the record's shape: a recognized field
/// stands in the record exactly when its step has run and the schema
/// asked for it; a category stands in it only once the builder is
/// done, and only under a relation-kind schema entry.
pub open spec fn builder_wf(b: BuilderView) -> bool {
    &&& (has_field(b.fields, FieldName::Name) <==> (stage_past_name(b.stage) && wants_title(
        b.schema.name,
    )))
    &&& (has_field(b.fields, FieldName::Amount) <==> (stage_past_amount(b.stage) && wants_number(
        b.schema.amount,
    )))
    &&& (has_field(b.fields, FieldName::Date) <==> (stage_past_date(b.stage) && wants_date(
        b.schema.date,
    )))
    &&& (has_field(b.fields, FieldName::Category) ==> (b.stage == Stage::Done && wants_relation(
        b.schema.category,
    )))
}

/// Builds one expense record against the run's schema.
pub struct RecordBuilder {
    schema: Schema,
    stage: Stage,
    fields: Vec<(FieldName, FieldValue)>,
    hint: Option<String>,
}

impl View for RecordBuilder {
    type V = BuilderView;

    closed spec fn view(&self) -> BuilderView {
        BuilderView {
            schema: self.schema,
            stage: self.stage,
            fields: self.fields@,
            hint: opt_text(self.hint),
        }
    }
}

impl RecordBuilder {
    /// Start an empty record against the given schema.
    pub fn new(schema: Schema) -> (r: RecordBuilder)
        ensures
            r@.schema == schema,
            r@.stage == Stage::AtName,
            r@.fields == Seq::<(FieldName, FieldValue)>::empty(),
            r@.hint is None,
            builder_wf(r@),
    {
        let r = RecordBuilder { schema, stage: Stage::AtName, fields: Vec::new(), hint: None };
        proof {
            assert(!has_field(r@.fields, FieldName::Name));
            assert(!has_field(r@.fields, FieldName::Amount));
            assert(!has_field(r@.fields, FieldName::Date));
            assert(!has_field(r@.fields, FieldName::Category));
        }
        r
    }

    /// Whether the name step is next and the schema asks for it.
    pub fn name_pending(&self) -> (r: bool)
        ensures
            r == (self@.stage == Stage::AtName && wants_title(self@.schema.name)),
    {
        match (&self.stage, &self.schema.name) {
            (Stage::AtName, Some(FieldKind::Title)) => true,
            _ => false,
        }
    }

    /// Record the entered name as the record's title, and retain the
    /// category recorded for that name — looked up case-insensitively
    /// and only here — as the preselection hint for the category step.
    pub fn set_name(&mut self, name: String, index: &NameHistoryIndex)
        requires
            old(self)@.stage == Stage::AtName,
            wants_title(old(self)@.schema.name),
            builder_wf(old(self)@),
        ensures
            final(self)@.schema == old(self)@.schema,
            final(self)@.stage == Stage::AtAmount,
            final(self)@.fields == old(self)@.fields.push(
                (FieldName::Name, FieldValue::Title(name)),
            ),
            final(self)@.hint == (if index@.categories.contains_key(lower_of(name@)) {
                Some(index@.categories[lower_of(name@)])
            } else {
                None::<Seq<char>>
            }),
            builder_wf(final(self)@),
    {
        let hint = index.get(name.as_str());
        self.hint = hint;
        proof {
            lemma_has_field_push(
                self.fields@,
                (FieldName::Name, FieldValue::Title(name)),
                FieldName::Name,
            );
            lemma_has_field_push(
                self.fields@,
                (FieldName::Name, FieldValue::Title(name)),
                FieldName::Amount,
            );
            lemma_has_field_push(
                self.fields@,
                (FieldName::Name, FieldValue::Title(name)),
                FieldName::Date,
            );
            lemma_has_field_push(
                self.fields@,
                (FieldName::Name, FieldValue::Title(name)),
                FieldName::Category,
            );
        }
        self.fields.push((FieldName::Name, FieldValue::Title(name)));
        self.stage = Stage::AtAmount;
    }

    /// Pass the name step by: the schema has no title-kind Name
    /// field, so the record gets no title.
    pub fn skip_name(&mut self)
        requires
            old(self)@.stage == Stage::AtName,
            !wants_title(old(self)@.schema.name),
            builder_wf(old(self)@),
        ensures
            final(self)@ == (BuilderView { stage: Stage::AtAmount, ..old(self)@ }),
            builder_wf(final(self)@),
    {
        self.stage = Stage::AtAmount;
    }

    /// Whether the amount step is next and the schema asks for it.
    pub fn amount_pending(&self) -> (r: bool)
        ensures
            r == (self@.stage == Stage::AtAmount && wants_number(self@.schema.amount)),
    {
        match (&self.stage, &self.schema.amount) {
            (Stage::AtAmount, Some(FieldKind::Number)) => true,
            _ => false,
        }
    }

    /// Evaluate the entered amount expression and record its result.
    /// A malformed expression leaves the builder untouched and hands
    /// the evaluator's error back; the caller abandons the record.
    pub fn set_amount(&mut self, text: &str) -> (r: Result<(), CalcError>)
        requires
            old(self)@.stage == Stage::AtAmount,
            wants_number(old(self)@.schema.amount),
            builder_wf(old(self)@),
        ensures
            builder_wf(final(self)@),
            match r {
                Ok(()) => {
                    &&& final(self)@.schema == old(self)@.schema
                    &&& final(self)@.hint == old(self)@.hint
                    &&& final(self)@.stage == Stage::AtDate
                    &&& final(self)@.fields.len() == old(self)@.fields.len() + 1
                    &&& final(self)@.fields.drop_last() == old(self)@.fields
                    &&& final(self)@.fields.last().0 == FieldName::Amount
                    &&& (final(self)@.fields.last().1 matches FieldValue::Number(e) && spec_calc(
                        text@,
                    ) == Ok::<Plan, CalcError>(e@))
                },
                Err(err) => {
                    &&& spec_calc(text@) == Err::<Plan, CalcError>(err)
                    &&& final(self)@ == old(self)@
                },
            },
    {
        match crate::calc::calc(text) {
            Ok(e) => {
                let ghost before = self.fields@;
                let ghost x = (FieldName::Amount, FieldValue::Number(e));
                proof {
                    lemma_has_field_push(before, x, FieldName::Name);
                    lemma_has_field_push(before, x, FieldName::Amount);
                    lemma_has_field_push(before, x, FieldName::Date);
                    lemma_has_field_push(before, x, FieldName::Category);
                }
                self.fields.push((FieldName::Amount, FieldValue::Number(e)));
                self.stage = Stage::AtDate;
                proof {
                    assert(self.fields@.drop_last() =~= before);
                }
                Ok(())
            },
            Err(err) => Err(err),
        }
    }

    /// Pass the amount step by: the schema has no number-kind Amount
    /// field.
    pub fn skip_amount(&mut self)
        requires
            old(self)@.stage == Stage::AtAmount,
            !wants_number(old(self)@.schema.amount),
            builder_wf(old(self)@),
        ensures
            final(self)@ == (BuilderView { stage: Stage::AtDate, ..old(self)@ }),
            builder_wf(final(self)@),
    {
        self.stage = Stage::AtDate;
    }

    /// Whether the date step is next and the schema asks for it.
    pub fn date_pending(&self) -> (r: bool)
        ensures
            r == (self@.stage == Stage::AtDate && wants_date(self@.schema.date)),
    {
        match (&self.stage, &self.schema.date) {
            (Stage::AtDate, Some(FieldKind::Date)) => true,
            _ => false,
        }
    }

    /// Record the chosen date, and make it the session's default for
    /// the next record.
    pub fn set_date(&mut self, session: &mut SessionState, d: Day)
        requires
            old(self)@.stage == Stage::AtDate,
            wants_date(old(self)@.schema.date),
            builder_wf(old(self)@),
        ensures
            final(self)@.schema == old(self)@.schema,
            final(self)@.hint == old(self)@.hint,
            final(self)@.stage == Stage::AtCategory,
            final(self)@.fields == old(self)@.fields.push((FieldName::Date, FieldValue::Date(d))),
            builder_wf(final(self)@),
            final(session).last_date == Some(d),
            final(session).cache == old(session).cache,
    {
        proof {
            let x = (FieldName::Date, FieldValue::Date(d));
            lemma_has_field_push(self.fields@, x, FieldName::Name);
            lemma_has_field_push(self.fields@, x, FieldName::Amount);
            lemma_has_field_push(self.fields@, x, FieldName::Date);
            lemma_has_field_push(self.fields@, x, FieldName::Category);
        }
        self.fields.push((FieldName::Date, FieldValue::Date(d)));
        self.stage = Stage::AtCategory;
        session.note_date(d);
    }

    /// Pass the date step by: the schema has no date-kind Date field.
    /// The session's default date is left as it was.
    pub fn skip_date(&mut self)
        requires
            old(self)@.stage == Stage::AtDate,
            !wants_date(old(self)@.schema.date),
            builder_wf(old(self)@),
        ensures
            final(self)@ == (BuilderView { stage: Stage::AtCategory, ..old(self)@ }),
            builder_wf(final(self)@),
    {
        self.stage = Stage::AtCategory;
    }

    /// Whether the category step is next and the schema asks for it.
    pub fn category_pending(&self) -> (r: bool)
        ensures
            r == (self@.stage == Stage::AtCategory && wants_relation(self@.schema.category)),
    {
        match (&self.stage, &self.schema.category) {
            (Stage::AtCategory, Some(FieldKind::Relation { target: _ })) => true,
            _ => false,
        }
    }

    /// The collection the category relation points into.
    pub fn relation_target(&self) -> (r: String)
        requires
            wants_relation(self@.schema.category),
        ensures
            self@.schema.category matches Some(FieldKind::Relation { target }) && r@ == target@,
    {
        match &self.schema.category {
            Some(FieldKind::Relation { target }) => target.clone(),
            _ => {
                proof {
                    assert(false);
                }
                String::new()
            },
        }
    }

    /// The preselection hint retained by the name step, if any.
    pub fn preselect_hint(&self) -> (r: Option<String>)
        ensures
            opt_text(r) == self@.hint,
    {
        match &self.hint {
            Some(s) => Some(s.clone()),
            None => None,
        }
    }

    /// Record the chosen category as the relation value.
    pub fn set_category(&mut self, id: String)
        requires
            old(self)@.stage == Stage::AtCategory,
            wants_relation(old(self)@.schema.category),
            builder_wf(old(self)@),
        ensures
            final(self)@.schema == old(self)@.schema,
            final(self)@.hint == old(self)@.hint,
            final(self)@.stage == Stage::Done,
            final(self)@.fields == old(self)@.fields.push(
                (FieldName::Category, FieldValue::Relation(id)),
            ),
            builder_wf(final(self)@),
    {
        proof {
            let x = (FieldName::Category, FieldValue::Relation(id));
            lemma_has_field_push(self.fields@, x, FieldName::Name);
            lemma_has_field_push(self.fields@, x, FieldName::Amount);
            lemma_has_field_push(self.fields@, x, FieldName::Date);
            lemma_has_field_push(self.fields@, x, FieldName::Category);
        }
        self.fields.push((FieldName::Category, FieldValue::Relation(id)));
        self.stage = Stage::Done;
    }

    /// Pass the category step by: either the schema has no
    /// relation-kind Category field, or the directory offered nothing
    /// to choose — the record then simply carries no category.
    pub fn skip_category(&mut self)
        requires
            old(self)@.stage == Stage::AtCategory,
            builder_wf(old(self)@),
        ensures
            final(self)@ == (BuilderView { stage: Stage::Done, ..old(self)@ }),
            builder_wf(final(self)@),
    {
        self.stage = Stage::Done;
    }

    /// The assembled record: the field values in the order their
    /// steps ran.
    pub fn finish(self) -> (r: Vec<(FieldName, FieldValue)>)
        requires
            self@.stage == Stage::Done,
        ensures
            r@ == self@.fields,
    {
        self.fields
    }
}

} // verus!
