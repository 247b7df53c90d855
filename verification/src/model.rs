//! Data model: one discovered application, as the menu shows it.

use vstd::prelude::*;

verus! {

/// A secondary launch variant of a desktop entry (a context-menu action).
#[derive(Debug)]
pub struct DesktopAction {
    pub name: String,
    pub exec_command: String,
}

/// Mathematical model of a [`DesktopAction`].
#[verifier::ext_equal]
pub ghost struct ActionView {
    pub name: Seq<char>,
    pub exec_command: Seq<char>,
}

impl View for DesktopAction {
    type V = ActionView;

    open spec fn view(&self) -> ActionView {
        ActionView { name: self.name@, exec_command: self.exec_command@ }
    }
}

impl Clone for DesktopAction {
    fn clone(&self) -> (r: Self)
        ensures
            r@ == self@,
    {
        DesktopAction { name: self.name.clone(), exec_command: self.exec_command.clone() }
    }
}

/// Where the icon of an application comes from: an icon-theme lookup by name,
/// a file on disk, or the fixed fallback icon when the entry names none.
#[derive(Debug)]
pub enum IconHandle {
    Named(String),
    Path(String),
    Fallback,
}

/// Mathematical model of an [`IconHandle`].
#[verifier::ext_equal]
pub ghost enum IconView {
    Named(Seq<char>),
    Path(Seq<char>),
    Fallback,
}

impl View for IconHandle {
    type V = IconView;

    open spec fn view(&self) -> IconView {
        match self {
            IconHandle::Named(n) => IconView::Named(n@),
            IconHandle::Path(p) => IconView::Path(p@),
            IconHandle::Fallback => IconView::Fallback,
        }
    }
}

impl Clone for IconHandle {
    fn clone(&self) -> (r: Self)
        ensures
            r@ == self@,
    {
        match self {
            IconHandle::Named(n) => IconHandle::Named(n.clone()),
            IconHandle::Path(p) => IconHandle::Path(p.clone()),
            IconHandle::Fallback => IconHandle::Fallback,
        }
    }
}

/// One application record of a catalog snapshot.
#[derive(Debug)]
pub struct ApplicationEntry {
    /// Locale-resolved display name; the primary sort and search key.
    pub name: String,
    /// Stable identity, unique within one snapshot.
    pub id: String,
    pub icon: IconHandle,
    /// Locale-resolved description, when the entry carries one.
    pub comment: Option<String>,
    /// Launch command; `None` marks a record that cannot be launched.
    pub exec_command: Option<String>,
    /// Free-form category tags.
    pub category: Vec<String>,
    /// Whether the launch command must run inside a terminal.
    pub is_terminal: bool,
    pub desktop_actions: Vec<DesktopAction>,
}

/// Mathematical model of an [`ApplicationEntry`].
#[verifier::ext_equal]
pub ghost struct AppView {
    pub name: Seq<char>,
    pub id: Seq<char>,
    pub icon: IconView,
    pub comment: Option<Seq<char>>,
    pub exec_command: Option<Seq<char>>,
    pub category: Seq<Seq<char>>,
    pub is_terminal: bool,
    pub desktop_actions: Seq<ActionView>,
}

impl View for ApplicationEntry {
    type V = AppView;

    open spec fn view(&self) -> AppView {
        AppView {
            name: self.name@,
            id: self.id@,
            icon: self.icon@,
            comment: match self.comment {
                Option::Some(c) => Option::Some(c@),
                Option::None => Option::None,
            },
            exec_command: match self.exec_command {
                Option::Some(e) => Option::Some(e@),
                Option::None => Option::None,
            },
            category: self.category.deep_view(),
            is_terminal: self.is_terminal,
            desktop_actions: self.desktop_actions@.map_values(|a: DesktopAction| a@),
        }
    }
}

impl DeepView for ApplicationEntry {
    type V = AppView;

    open spec fn deep_view(&self) -> AppView {
        self.view()
    }
}

impl AppView {
    /// A well-formed record has an identity and something to display.
    pub open spec fn wf(self) -> bool {
        &&& self.id.len() > 0
        &&& self.name.len() > 0
    }
}

/// Clones a vector of strings; the model of the copy is the model of the input.
fn clone_string_vec(v: &Vec<String>) -> (r: Vec<String>)
    ensures
        r.deep_view() == v.deep_view(),
{
    let mut r: Vec<String> = Vec::new();
    let mut i: usize = 0;
    while i < v.len()
        invariant
            i <= v.len(),
            r@.len() == i,
            forall|j: int| 0 <= j < i ==> r@[j] == v@[j],
        decreases v.len() - i,
    {
        r.push(v[i].clone());
        i = i + 1;
    }
    assert(r.deep_view() =~= v.deep_view());
    r
}

/// Clones an option of a string, keeping the model.
fn clone_opt_string(v: &Option<String>) -> (r: Option<String>)
    ensures
        match v {
            Option::Some(s) => r matches Option::Some(t) && s@ == t@ && *s == t,
            Option::None => r is None,
        },
{
    match v {
        Option::Some(s) => Option::Some(s.clone()),
        Option::None => Option::None,
    }
}

fn clone_actions(v: &Vec<DesktopAction>) -> (r: Vec<DesktopAction>)
    ensures
        r@.map_values(|a: DesktopAction| a@) == v@.map_values(|a: DesktopAction| a@),
{
    let mut r: Vec<DesktopAction> = Vec::new();
    let mut i: usize = 0;
    while i < v.len()
        invariant
            i <= v.len(),
            r@.len() == i,
            forall|j: int| 0 <= j < i ==> #[trigger] r@[j]@ == v@[j]@,
        decreases v.len() - i,
    {
        r.push(v[i].clone());
        i = i + 1;
    }
    assert(r@.map_values(|a: DesktopAction| a@) =~= v@.map_values(|a: DesktopAction| a@));
    r
}

impl Clone for ApplicationEntry {
    fn clone(&self) -> (r: Self)
        ensures
            r@ == self@,
    {
        let r = ApplicationEntry {
            name: self.name.clone(),
            id: self.id.clone(),
            icon: self.icon.clone(),
            comment: clone_opt_string(&self.comment),
            exec_command: clone_opt_string(&self.exec_command),
            category: clone_string_vec(&self.category),
            is_terminal: self.is_terminal,
            desktop_actions: clone_actions(&self.desktop_actions),
        };
        assert(r@ =~= self@);
        r
    }
}

/// The user at the session, as the external account service reports it.
#[derive(Debug)]
pub struct User {
    pub username: String,
    pub user_realname: String,
    pub profile_picture: String,
    pub uid: u64,
    pub user_home: String,
    pub user_shell: String,
}

} // verus!
