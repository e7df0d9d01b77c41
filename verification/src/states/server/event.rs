//! What a session tells its observers.

use vstd::prelude::*;
use vstd::string::StringExecFns;

use crate::states::server::value::opt_text;

verus! {

/// How serious a notification is.
#[derive(Debug, Clone, Copy, PartialEq, Eq, Structural)]
pub enum NotificationCategory {
    Info,
    Success,
    Warning,
    Error,
}

/// A message for the user.
#[derive(Debug, Clone, PartialEq, Eq)]
pub struct NotificationAction {
    pub category: NotificationCategory,
    pub title: Option<String>,
    pub message: String,
}

/// The mathematical value of a [`NotificationAction`].
pub ghost struct NotificationView {
    pub category: NotificationCategory,
    pub title: Option<Seq<char>>,
    pub message: Seq<char>,
}

impl NotificationView {
    /// A report of success without a title.
    pub open spec fn success(message: Seq<char>) -> NotificationView {
        NotificationView { category: NotificationCategory::Success, title: None, message }
    }

    /// A report of failure without a title.
    pub open spec fn error(message: Seq<char>) -> NotificationView {
        NotificationView { category: NotificationCategory::Error, title: None, message }
    }

    /// The same notification under `title`.
    pub open spec fn with_title(self, title: Seq<char>) -> NotificationView {
        NotificationView { title: Some(title), ..self }
    }
}

impl View for NotificationAction {
    type V = NotificationView;

    open spec fn view(&self) -> NotificationView {
        NotificationView {
            category: self.category,
            title: opt_text(self.title),
            message: self.message@,
        }
    }
}

impl NotificationAction {
    /// A report of success without a title.
    pub fn new_success(message: String) -> (r: NotificationAction)
        ensures
            r@ == NotificationView::success(message@),
    {
        NotificationAction { category: NotificationCategory::Success, title: None, message }
    }

    /// A report of failure without a title.
    pub fn new_error(message: String) -> (r: NotificationAction)
        ensures
            r@ == NotificationView::error(message@),
    {
        NotificationAction { category: NotificationCategory::Error, title: None, message }
    }

    /// The same notification under `title`.
    pub fn with_title(self, title: String) -> (r: NotificationAction)
        ensures
            r@ == self@.with_title(title@),
    {
        NotificationAction { category: self.category, title: Some(title), message: self.message }
    }
}

/// Something that happened in a session and that observers may react to.
/// The first four name the key whose value is concerned.
#[derive(Debug, Clone, PartialEq, Eq)]
pub enum ServerEvent {
    /// The store took a new entry of the value.
    ValueAdded(String),
    /// The store changed the value.
    ValueUpdated(String),
    /// The fetch of one more page of the value began.
    ValuePaginationStarted(String),
    /// The fetch of one more page of the value ended, well or not.
    ValuePaginationFinished(String),
    /// There is something to tell the user.
    Notification(NotificationAction),
}

/// The mathematical value of a [`ServerEvent`].
pub ghost enum EventView {
    ValueAdded(Seq<char>),
    ValueUpdated(Seq<char>),
    ValuePaginationStarted(Seq<char>),
    ValuePaginationFinished(Seq<char>),
    Notification(NotificationView),
}

impl View for ServerEvent {
    type V = EventView;

    open spec fn view(&self) -> EventView {
        match self {
            ServerEvent::ValueAdded(k) => EventView::ValueAdded(k@),
            ServerEvent::ValueUpdated(k) => EventView::ValueUpdated(k@),
            ServerEvent::ValuePaginationStarted(k) => EventView::ValuePaginationStarted(k@),
            ServerEvent::ValuePaginationFinished(k) => EventView::ValuePaginationFinished(k@),
            ServerEvent::Notification(n) => EventView::Notification(n@),
        }
    }
}

impl DeepView for ServerEvent {
    type V = EventView;

    open spec fn deep_view(&self) -> EventView {
        self@
    }
}

/// The title of the report that a field was added.
pub open spec fn add_value_title() -> Seq<char> {
    "add_value_success"@
}

/// The text of the report that a field was added.
pub open spec fn add_value_message() -> Seq<char> {
    "add_value_success_tips"@
}

/// The report that a field was added. Its title and text are the names
/// under which the words to show are looked up.
pub fn add_value_notification() -> (r: NotificationAction)
    ensures
        r@ == NotificationView::success(add_value_message()).with_title(add_value_title()),
{
    NotificationAction::new_success(String::from_str("add_value_success_tips")).with_title(
        String::from_str("add_value_success"),
    )
}

} // verus!
