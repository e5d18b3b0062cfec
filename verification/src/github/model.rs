//! Labels and milestones as GitHub's issues API returns them, and the bodies
//! of the requests that create or change them.
use vstd::prelude::*;

verus! {

/// A repository label.
#[derive(Debug, Clone)]
pub struct Label {
    pub id: u64,
    pub name: String,
    pub color: String,
    pub description: Option<String>,
    pub default: bool,
}

/// The content of a [`Label`].
pub struct LabelView {
    pub id: u64,
    pub name: Seq<char>,
    pub color: Seq<char>,
    pub description: Option<Seq<char>>,
    pub default: bool,
}

impl View for Label {
    type V = LabelView;

    open spec fn view(&self) -> LabelView {
        LabelView {
            id: self.id,
            name: self.name@,
            color: self.color@,
            description: self.description.deep_view(),
            default: self.default,
        }
    }
}

/// The contents of a list of labels.
pub open spec fn label_views(v: Seq<Label>) -> Seq<LabelView> {
    v.map_values(|l: Label| l@)
}

/// Body of a request that creates a label.
#[derive(Debug)]
pub struct CreateLabelRequest {
    pub name: String,
    pub color: String,
    pub description: Option<String>,
}

/// The content of a [`CreateLabelRequest`].
pub struct CreateLabelRequestView {
    pub name: Seq<char>,
    pub color: Seq<char>,
    pub description: Option<Seq<char>>,
}

impl View for CreateLabelRequest {
    type V = CreateLabelRequestView;

    open spec fn view(&self) -> CreateLabelRequestView {
        CreateLabelRequestView {
            name: self.name@,
            color: self.color@,
            description: self.description.deep_view(),
        }
    }
}

/// Body of a request that changes a label; an absent field is left as it is.
/// The description is three-way: absent (kept), `Some(None)` (cleared) or
/// `Some(Some(d))` (set to `d`).
#[derive(Debug)]
pub struct UpdateLabelRequest {
    pub new_name: Option<String>,
    pub color: Option<String>,
    pub description: Option<Option<String>>,
}

/// The content of an [`UpdateLabelRequest`].
pub struct UpdateLabelRequestView {
    pub new_name: Option<Seq<char>>,
    pub color: Option<Seq<char>>,
    pub description: Option<Option<Seq<char>>>,
}

impl View for UpdateLabelRequest {
    type V = UpdateLabelRequestView;

    open spec fn view(&self) -> UpdateLabelRequestView {
        UpdateLabelRequestView {
            new_name: self.new_name.deep_view(),
            color: self.color.deep_view(),
            description: self.description.deep_view(),
        }
    }
}

/// A repository milestone.
#[derive(Debug, Clone)]
pub struct Milestone {
    pub number: u64,
    pub title: String,
    pub description: Option<String>,
    pub state: String,
    pub due_on: Option<String>,
}

/// The content of a [`Milestone`].
pub struct MilestoneView {
    pub number: u64,
    pub title: Seq<char>,
    pub description: Option<Seq<char>>,
    pub state: Seq<char>,
    pub due_on: Option<Seq<char>>,
}

impl View for Milestone {
    type V = MilestoneView;

    open spec fn view(&self) -> MilestoneView {
        MilestoneView {
            number: self.number,
            title: self.title@,
            description: self.description.deep_view(),
            state: self.state@,
            due_on: self.due_on.deep_view(),
        }
    }
}

/// The contents of a list of milestones.
pub open spec fn milestone_views(v: Seq<Milestone>) -> Seq<MilestoneView> {
    v.map_values(|m: Milestone| m@)
}

/// Body of a request that creates a milestone.
#[derive(Debug)]
pub struct CreateMilestoneRequest {
    pub title: String,
    pub description: Option<String>,
    pub state: Option<String>,
    pub due_on: Option<String>,
}

/// The content of a [`CreateMilestoneRequest`].
pub struct CreateMilestoneRequestView {
    pub title: Seq<char>,
    pub description: Option<Seq<char>>,
    pub state: Option<Seq<char>>,
    pub due_on: Option<Seq<char>>,
}

impl View for CreateMilestoneRequest {
    type V = CreateMilestoneRequestView;

    open spec fn view(&self) -> CreateMilestoneRequestView {
        CreateMilestoneRequestView {
            title: self.title@,
            description: self.description.deep_view(),
            state: self.state.deep_view(),
            due_on: self.due_on.deep_view(),
        }
    }
}

/// Body of a request that changes a milestone; an absent field is left as it
/// is. Description and due date are three-way: absent (kept), `Some(None)`
/// (cleared) or `Some(Some(x))` (set to `x`).
#[derive(Debug)]
pub struct UpdateMilestoneRequest {
    pub title: Option<String>,
    pub description: Option<Option<String>>,
    pub state: Option<String>,
    pub due_on: Option<Option<String>>,
}

/// The content of an [`UpdateMilestoneRequest`].
pub struct UpdateMilestoneRequestView {
    pub title: Option<Seq<char>>,
    pub description: Option<Option<Seq<char>>>,
    pub state: Option<Seq<char>>,
    pub due_on: Option<Option<Seq<char>>>,
}

impl View for UpdateMilestoneRequest {
    type V = UpdateMilestoneRequestView;

    open spec fn view(&self) -> UpdateMilestoneRequestView {
        UpdateMilestoneRequestView {
            title: self.title.deep_view(),
            description: self.description.deep_view(),
            state: self.state.deep_view(),
            due_on: self.due_on.deep_view(),
        }
    }
}

} // verus!
