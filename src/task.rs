//! A task: identity, optional parent, name, and its lifecycle
//! Incomplete, then InProgress, then Complete.

use crate::summary::{
    get_images, html_of, lists_exactly, pending_of, render_html, summary_key, summary_key_of,
    ImageRef,
};
use crate::time::Time;
use vstd::prelude::*;

verus! {

/// Where a task stands in its lifecycle.
#[derive(Debug, Clone, Copy, PartialEq, Eq, Structural)]
pub enum TaskStaus {
    Incomplete,
    InProgress,
    Complete,
}

impl TaskStaus {
    /// The status as shown to people.
    pub fn label(&self) -> (r: &'static str)
        ensures
            *self == TaskStaus::Incomplete ==> r@ == "Incomplete"@,
            *self == TaskStaus::InProgress ==> r@ == "In Progress"@,
            *self == TaskStaus::Complete ==> r@ == "Complete"@,
    {
        match self {
            TaskStaus::Incomplete => "Incomplete",
            TaskStaus::InProgress => "In Progress",
            TaskStaus::Complete => "Complete",
        }
    }
}

/// What stopping a task leaves for the caller to store.
#[derive(Debug)]
pub enum StopOutcome {
    /// No summary was given.
    Stopped,
    /// The summary was rendered: `html` is to be stored under `key`.
    Rendered { key: String, html: String },
    /// The summary names local images not yet uploaded: `text` is to be
    /// staged for the task until `images` arrive.
    Pending { text: String, images: Vec<ImageRef> },
}

/// Whether `text` references a local image.
pub open spec fn has_pending(text: Seq<char>) -> bool {
    exists|k: Seq<char>| #[trigger] pending_of(text).contains_key(k)
}

/// `after` is `before` marked complete at a valid instant, with `summary`
/// handled as `r` reports: none given, rendered and its key recorded, or
/// handed back to wait for the local images it names.
pub open spec fn stop_effect(before: Task, after: Task, summary: Option<String>, r: StopOutcome) -> bool {
    &&& after.end_time matches Some(t) && t.wf()
    &&& after == (Task {
        status: TaskStaus::Complete,
        end_time: after.end_time,
        summary: after.summary,
        ..before
    })
    &&& match summary {
        None => r is Stopped && after.summary == before.summary,
        Some(s) => if has_pending(s@) {
            &&& after.summary == before.summary
            &&& r matches StopOutcome::Pending { text, images } && text@ == s@ && lists_exactly(
                images@,
                pending_of(s@),
            )
        } else {
            &&& r matches StopOutcome::Rendered { key, html } && key@ == summary_key_of(before.id)
                && html@ == html_of(s@) && after.summary == Some(key)
        },
    }
}

/// `after` is `before` put in progress from a valid instant.
pub open spec fn started(before: Task, after: Task) -> bool {
    &&& after.start_time matches Some(t) && t.wf()
    &&& after == (Task { status: TaskStaus::InProgress, start_time: after.start_time, ..before })
}

#[derive(Debug)]
pub struct Task {
    pub id: u64,
    pub parent_id: Option<u64>,
    pub name: String,
    pub status: TaskStaus,
    pub start_time: Option<Time>,
    pub end_time: Option<Time>,
    /// Key of the rendered completion summary.
    pub summary: Option<String>,
}

impl Task {
    /// A new task: Incomplete, never started or stopped, with no summary.
    pub open spec fn new_spec(id: u64, parent_id: Option<u64>, name: String) -> Task {
        Task {
            id,
            parent_id,
            name,
            status: TaskStaus::Incomplete,
            start_time: None,
            end_time: None,
            summary: None,
        }
    }

    pub fn new(id: u64, parent_id: Option<u64>, name: String) -> (r: Task)
        ensures
            r == Task::new_spec(id, parent_id, name),
    {
        Task {
            id,
            parent_id,
            name,
            status: TaskStaus::Incomplete,
            start_time: None,
            end_time: None,
            summary: None,
        }
    }

    /// Marks the task in progress from `at`.
    pub fn start_at(&mut self, at: Time)
        ensures
            *final(self) == (Task {
                status: TaskStaus::InProgress,
                start_time: Some(at),
                ..*old(self)
            }),
    {
        self.status = TaskStaus::InProgress;
        self.start_time = Some(at);
    }

    /// Marks the task in progress from now.
    pub fn start(&mut self)
        ensures
            started(*old(self), *final(self)),
    {
        let now = Time::now();
        self.start_at(now);
    }

    /// Marks the task complete at `end` and handles its summary: a summary
    /// without local images is rendered at once; one with local images is
    /// handed back to be staged, with the images it waits for.
    pub fn stop_at(&mut self, end: Time, summary: Option<String>) -> (r: StopOutcome)
        requires
            end.wf(),
        ensures
            final(self).end_time == Some(end),
            stop_effect(*old(self), *final(self), summary, r),
    {
        self.status = TaskStaus::Complete;
        self.end_time = Some(end);
        match summary {
            None => StopOutcome::Stopped,
            Some(text) => {
                let images = get_images(text.as_str());
                if images.len() > 0 {
                    assert(pending_of(text@).contains_key(images@[0].name@));
                    StopOutcome::Pending { text, images }
                } else {
                    assert(!has_pending(text@));
                    let html = render_html(text.as_str());
                    let key = summary_key(self.id);
                    self.summary = Some(key.clone());
                    StopOutcome::Rendered { key, html }
                }
            },
        }
    }

    /// Marks the task complete now; see `stop_at`.
    pub fn stop(&mut self, summary: Option<String>) -> (r: StopOutcome)
        ensures
            final(self).end_time matches Some(t) && t.wf(),
            stop_effect(*old(self), *final(self), summary, r),
    {
        let now = Time::now();
        self.stop_at(now, summary)
    }

    pub fn rename(&mut self, name: String)
        ensures
            *final(self) == (Task { name, ..*old(self) }),
    {
        self.name = name;
    }

    pub fn get_id(&self) -> (r: u64)
        ensures
            r == self.id,
    {
        self.id
    }

    pub fn get_parent_id(&self) -> (r: Option<u64>)
        ensures
            r == self.parent_id,
    {
        self.parent_id
    }

    pub fn get_name(&self) -> (r: &str)
        ensures
            r@ == self.name@,
    {
        self.name.as_str()
    }

    pub fn get_status(&self) -> (r: &TaskStaus)
        ensures
            *r == self.status,
    {
        &self.status
    }
}

} // verus!
