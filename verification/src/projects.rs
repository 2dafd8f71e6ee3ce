//! The stayhydated projects shown in the project switcher, and the switcher's decisions.
use vstd::prelude::*;
use crate::text::{concat3, str_eq};

verus! {

/// An entry of the project switcher.
#[derive(Debug)]
pub struct ProjectOption {
    pub id: String,
    pub mark: String,
    pub name: String,
    pub description: String,
    pub href: String,
}

impl Clone for ProjectOption {
    fn clone(&self) -> (r: Self)
        ensures
            r == *self,
    {
        ProjectOption {
            id: self.id.clone(),
            mark: self.mark.clone(),
            name: self.name.clone(),
            description: self.description.clone(),
            href: self.href.clone(),
        }
    }
}

/// A project of the stayhydated family.
#[derive(Clone, Copy, Debug, PartialEq, Eq, Structural)]
pub enum StayhydatedProject {
    Stayhydated,
    Koruma,
    EsFluent,
}

/// The messages of the project switcher that are translated.
#[derive(Clone, Copy, Debug, PartialEq, Eq, Structural)]
pub enum ProjectSelectMessage {
    EsFluentDescription,
    KorumaDescription,
    ProjectListLabel,
    ProjectSelectorLabel,
    StayhydatedDescription,
}

/// The fixed facts of a project: its id, its mark, its name and its site.
pub struct ProjectMetadata {
    pub id: &'static str,
    pub mark: &'static str,
    pub name: &'static str,
    pub href: &'static str,
}

/// The id of a project.
pub open spec fn spec_project_id(p: StayhydatedProject) -> Seq<char> {
    match p {
        StayhydatedProject::Stayhydated => "stayhydated"@,
        StayhydatedProject::Koruma => "koruma"@,
        StayhydatedProject::EsFluent => "es-fluent"@,
    }
}

/// The short mark of a project.
pub open spec fn spec_project_mark(p: StayhydatedProject) -> Seq<char> {
    match p {
        StayhydatedProject::Stayhydated => "SH"@,
        StayhydatedProject::Koruma => "K"@,
        StayhydatedProject::EsFluent => "EF"@,
    }
}

/// The name of a project.
pub open spec fn spec_project_name(p: StayhydatedProject) -> Seq<char> {
    match p {
        StayhydatedProject::Stayhydated => "stayhydated"@,
        StayhydatedProject::Koruma => "koruma"@,
        StayhydatedProject::EsFluent => "es-fluent"@,
    }
}

/// The site of a project.
pub open spec fn spec_project_href(p: StayhydatedProject) -> Seq<char> {
    match p {
        StayhydatedProject::Stayhydated => "/"@,
        StayhydatedProject::Koruma => "/koruma/"@,
        StayhydatedProject::EsFluent => "/es-fluent/"@,
    }
}

/// The message that describes a project.
pub open spec fn spec_description_message(p: StayhydatedProject) -> ProjectSelectMessage {
    match p {
        StayhydatedProject::Stayhydated => ProjectSelectMessage::StayhydatedDescription,
        StayhydatedProject::Koruma => ProjectSelectMessage::KorumaDescription,
        StayhydatedProject::EsFluent => ProjectSelectMessage::EsFluentDescription,
    }
}

/// `o` is the switcher entry of `p` with the given name, description and link.
pub open spec fn is_option_of(
    o: ProjectOption,
    p: StayhydatedProject,
    name: Seq<char>,
    description: Seq<char>,
    href: Seq<char>,
) -> bool {
    &&& o.id@ == spec_project_id(p)
    &&& o.mark@ == spec_project_mark(p)
    &&& o.name@ == name
    &&& o.description@ == description
    &&& o.href@ == href
}

/// The projects of the family, in switcher order.
pub open spec fn spec_all_projects() -> Seq<StayhydatedProject> {
    seq![StayhydatedProject::Stayhydated, StayhydatedProject::Koruma, StayhydatedProject::EsFluent]
}

impl StayhydatedProject {
    /// Every project of the family, in switcher order.
    pub fn all() -> (r: Vec<StayhydatedProject>)
        ensures
            r@ == spec_all_projects(),
    {
        let r = vec![StayhydatedProject::Stayhydated, StayhydatedProject::Koruma, StayhydatedProject::EsFluent];
        assert(r@ =~= spec_all_projects());
        r
    }

    /// The fixed facts of this project.
    pub fn metadata(self) -> (r: ProjectMetadata)
        ensures
            r.id@ == spec_project_id(self),
            r.mark@ == spec_project_mark(self),
            r.name@ == spec_project_name(self),
            r.href@ == spec_project_href(self),
    {
        match self {
            StayhydatedProject::Stayhydated => ProjectMetadata {
                id: "stayhydated",
                mark: "SH",
                name: "stayhydated",
                href: "/",
            },
            StayhydatedProject::Koruma => ProjectMetadata {
                id: "koruma",
                mark: "K",
                name: "koruma",
                href: "/koruma/",
            },
            StayhydatedProject::EsFluent => ProjectMetadata {
                id: "es-fluent",
                mark: "EF",
                name: "es-fluent",
                href: "/es-fluent/",
            },
        }
    }

    /// The message that describes this project.
    pub fn description_message(self) -> (r: Option<ProjectSelectMessage>)
        ensures
            r == Some(spec_description_message(self)),
    {
        match self {
            StayhydatedProject::Stayhydated => Some(ProjectSelectMessage::StayhydatedDescription),
            StayhydatedProject::Koruma => Some(ProjectSelectMessage::KorumaDescription),
            StayhydatedProject::EsFluent => Some(ProjectSelectMessage::EsFluentDescription),
        }
    }

    /// The switcher entry of this project, with its own name and site and no description.
    pub fn option(self) -> (r: ProjectOption)
        ensures
            is_option_of(r, self, spec_project_name(self), ""@, spec_project_href(self)),
    {
        let metadata = self.metadata();
        self.option_with(metadata.name, "", metadata.href)
    }

    /// The switcher entry of this project, described by the translation of its description
    /// message (`None` when there is no translation, which leaves the description empty).
    pub fn localized_option(self, localized_description: Option<String>) -> (r: ProjectOption)
        ensures
            is_option_of(
                r,
                self,
                spec_project_name(self),
                match localized_description {
                    Some(d) => d@,
                    None => ""@,
                },
                spec_project_href(self),
            ),
    {
        let metadata = self.metadata();
        let description = match localized_description {
            Some(d) => d,
            None => "".to_owned(),
        };
        self.option_with(metadata.name, description.as_str(), metadata.href)
    }

    /// The switcher entry of this project with the given name, description and link.
    pub fn option_with(self, name: &str, description: &str, href: &str) -> (r: ProjectOption)
        ensures
            is_option_of(r, self, name@, description@, href@),
    {
        let metadata = self.metadata();
        ProjectOption {
            id: metadata.id.to_owned(),
            mark: metadata.mark.to_owned(),
            name: name.to_owned(),
            description: description.to_owned(),
            href: href.to_owned(),
        }
    }
}

/// Two entries show the same thing: all their fields agree.
pub open spec fn spec_same_content(a: ProjectOption, b: ProjectOption) -> bool {
    &&& a.id@ == b.id@
    &&& a.mark@ == b.mark@
    &&& a.name@ == b.name@
    &&& a.description@ == b.description@
    &&& a.href@ == b.href@
}

impl ProjectOption {
    /// Whether `other` shows exactly what this entry shows.
    pub fn has_same_content(&self, other: &Self) -> (r: bool)
        ensures
            r == spec_same_content(*self, *other),
    {
        self.id == other.id && self.mark == other.mark && self.name == other.name
            && self.description == other.description && self.href == other.href
    }

    /// The text that type-ahead matches against: the name, a space and the description.
    pub fn text_value(&self) -> (r: String)
        ensures
            r@ == self.name@ + " "@ + self.description@,
    {
        concat3(self.name.as_str(), " ", self.description.as_str())
    }
}

/// Entries are the same project when their ids agree.
impl PartialEq for ProjectOption {
    fn eq(&self, other: &Self) -> (r: bool) {
        self.id == other.id
    }
}

impl vstd::std_specs::cmp::PartialEqSpecImpl for ProjectOption {
    open spec fn obeys_eq_spec() -> bool {
        true
    }

    open spec fn eq_spec(&self, other: &Self) -> bool {
        self.id@ == other.id@
    }
}

impl Eq for ProjectOption {}

/// The switcher entries of every project of the family, in switcher order.
pub fn stayhydated_project_options() -> (r: Vec<ProjectOption>)
    ensures
        r@.len() == spec_all_projects().len(),
        forall|i: int|
            0 <= i < r@.len() ==> is_option_of(
                #[trigger] r@[i],
                spec_all_projects()[i],
                spec_project_name(spec_all_projects()[i]),
                ""@,
                spec_project_href(spec_all_projects()[i]),
            ),
{
    let projects = StayhydatedProject::all();
    let mut out: Vec<ProjectOption> = Vec::new();
    let mut i: usize = 0;
    while i < projects.len()
        invariant
            projects@ == spec_all_projects(),
            i <= projects@.len(),
            out@.len() == i,
            forall|k: int|
                0 <= k < i ==> is_option_of(
                    #[trigger] out@[k],
                    spec_all_projects()[k],
                    spec_project_name(spec_all_projects()[k]),
                    ""@,
                    spec_project_href(spec_all_projects()[k]),
                ),
        decreases projects@.len() - i,
    {
        out.push(projects[i].option());
        i = i + 1;
    }
    out
}

/// The translated description at `i` in `descriptions`: empty when there is no entry at `i`
/// or the entry holds no translation.
pub open spec fn description_at(descriptions: Seq<Option<String>>, i: int) -> Seq<char> {
    if 0 <= i < descriptions.len() {
        match descriptions[i] {
            Some(d) => d@,
            None => ""@,
        }
    } else {
        ""@
    }
}

/// The switcher entries of every project of the family, each described by its translated
/// description; `descriptions[i]` is the translation for the `i`-th project. A project with
/// no entry, or whose entry is `None`, gets an empty description; entries past the last
/// project are not used.
pub fn localized_stayhydated_project_options(descriptions: &Vec<Option<String>>) -> (r: Vec<ProjectOption>)
    ensures
        r@.len() == spec_all_projects().len(),
        forall|i: int|
            0 <= i < r@.len() ==> is_option_of(
                #[trigger] r@[i],
                spec_all_projects()[i],
                spec_project_name(spec_all_projects()[i]),
                description_at(descriptions@, i),
                spec_project_href(spec_all_projects()[i]),
            ),
{
    let projects = StayhydatedProject::all();
    let mut out: Vec<ProjectOption> = Vec::new();
    let mut i: usize = 0;
    while i < projects.len()
        invariant
            projects@ == spec_all_projects(),
            i <= projects@.len(),
            out@.len() == i,
            forall|k: int|
                0 <= k < i ==> is_option_of(
                    #[trigger] out@[k],
                    spec_all_projects()[k],
                    spec_project_name(spec_all_projects()[k]),
                    description_at(descriptions@, k),
                    spec_project_href(spec_all_projects()[k]),
                ),
        decreases projects@.len() - i,
    {
        let description = if i < descriptions.len() {
            descriptions[i].clone()
        } else {
            None
        };
        out.push(projects[i].localized_option(description));
        i = i + 1;
    }
    out
}

/// Whether two lists of entries show the same thing, entry by entry.
pub fn project_options_have_same_content(left: &[ProjectOption], right: &[ProjectOption]) -> (r: bool)
    ensures
        r == (left@.len() == right@.len() && forall|i: int|
            0 <= i < left@.len() ==> spec_same_content(#[trigger] left@[i], right@[i])),
{
    if left.len() != right.len() {
        return false;
    }
    let mut i: usize = 0;
    while i < left.len()
        invariant
            left@.len() == right@.len(),
            i <= left@.len(),
            forall|k: int| 0 <= k < i ==> spec_same_content(#[trigger] left@[k], right@[k]),
        decreases left@.len() - i,
    {
        if !left[i].has_same_content(&right[i]) {
            return false;
        }
        i = i + 1;
    }
    true
}

/// The position of the first entry whose id is `id`.
pub open spec fn first_with_id(projects: Seq<ProjectOption>, id: Seq<char>, k: int) -> Option<int>
    decreases projects.len() - k,
{
    if k < 0 || k >= projects.len() {
        None
    } else if projects[k].id@ == id {
        Some(k)
    } else {
        first_with_id(projects, id, k + 1)
    }
}

/// The position of the first entry whose id is `id`.
fn find_project(projects: &[ProjectOption], id: &str) -> (r: Option<usize>)
    ensures
        match r {
            Some(i) => first_with_id(projects@, id@, 0) == Some(i as int) && i < projects@.len(),
            None => first_with_id(projects@, id@, 0) is None,
        },
{
    let mut i: usize = 0;
    while i < projects.len()
        invariant
            i <= projects@.len(),
            first_with_id(projects@, id@, 0) == first_with_id(projects@, id@, i as int),
        decreases projects@.len() - i,
    {
        if str_eq(projects[i].id.as_str(), id) {
            assert(first_with_id(projects@, id@, i as int) == Some(i as int));
            return Some(i);
        }
        i = i + 1;
    }
    None
}

/// The entry that the switcher's trigger shows: the first entry with the current id, else
/// the selected entry.
pub open spec fn spec_trigger_project(
    projects: Seq<ProjectOption>,
    current_id: Option<Seq<char>>,
    selected: ProjectOption,
) -> ProjectOption {
    match current_id {
        Some(id) => match first_with_id(projects, id, 0) {
            Some(i) => projects[i],
            None => selected,
        },
        None => selected,
    }
}

/// The entry to switch to when `next_id` is picked while `current_id` is selected.
pub open spec fn spec_project_to_open(
    projects: Seq<ProjectOption>,
    current_id: Option<Seq<char>>,
    next_id: Option<Seq<char>>,
) -> Option<ProjectOption> {
    match next_id {
        None => None,
        Some(next) => if current_id == Some(next) {
            None
        } else {
            match first_with_id(projects, next, 0) {
                Some(i) => Some(projects[i]),
                None => None,
            }
        },
    }
}

/// The entry that the switcher's trigger shows: the first entry with the current id,
/// else the selected entry.
pub fn trigger_project(projects: &[ProjectOption], current_id: Option<&str>, selected: &ProjectOption) -> (r: ProjectOption)
    ensures
        r == spec_trigger_project(
            projects@,
            match current_id {
                Some(id) => Some(id@),
                None => None,
            },
            *selected,
        ),
{
    match current_id {
        Some(id) => match find_project(projects, id) {
            Some(i) => projects[i].clone(),
            None => selected.clone(),
        },
        None => selected.clone(),
    }
}

/// The entry to switch to when the user picks `next_id` while `current_id` is selected:
/// none when nothing was picked, when the pick is the current project or when no entry has
/// that id; else the first entry with that id, whose site the switcher then opens.
pub fn project_to_open(projects: &[ProjectOption], current_id: Option<&str>, next_id: Option<&str>) -> (r: Option<ProjectOption>)
    ensures
        r == spec_project_to_open(
            projects@,
            match current_id {
                Some(c) => Some(c@),
                None => None,
            },
            match next_id {
                Some(n) => Some(n@),
                None => None,
            },
        ),
{
    let next = match next_id {
        Some(next) => next,
        None => {
            return None;
        },
    };
    match current_id {
        Some(c) => {
            if str_eq(c, next) {
                return None;
            }
        },
        None => {},
    }
    match find_project(projects, next) {
        Some(i) => Some(projects[i].clone()),
        None => None,
    }
}

/// The class of an entry of the switcher's list.
pub fn project_select_option_class(active: bool) -> (r: &'static str)
    ensures
        r@ == if active {
            "project-select-option is-active"@
        } else {
            "project-select-option"@
        },
{
    if active {
        "project-select-option is-active"
    } else {
        "project-select-option"
    }
}

/// The class of a project lockup.
pub fn project_lockup_class(compact: bool) -> (r: &'static str)
    ensures
        r@ == if compact {
            "project-lockup is-compact"@
        } else {
            "project-lockup"@
        },
{
    if compact {
        "project-lockup is-compact"
    } else {
        "project-lockup"
    }
}

/// The switcher entries of the index site: the site itself, then koruma and es-fluent,
/// each with its translated description and its site.
pub fn localized_project_options(
    current_site: ProjectOption,
    koruma_description: String,
    es_fluent_description: String,
) -> (r: Vec<ProjectOption>)
    ensures
        r@.len() == 3,
        r@[0] == current_site,
        is_option_of(r@[1], StayhydatedProject::Koruma, "koruma"@, koruma_description@, crate::site::KORUMA_SITE_URL@),
        is_option_of(r@[2], StayhydatedProject::EsFluent, "es-fluent"@, es_fluent_description@, crate::site::ES_FLUENT_SITE_URL@),
{
    let koruma = StayhydatedProject::Koruma.option_with(
        "koruma",
        koruma_description.as_str(),
        crate::site::KORUMA_SITE_URL,
    );
    let es_fluent = StayhydatedProject::EsFluent.option_with(
        "es-fluent",
        es_fluent_description.as_str(),
        crate::site::ES_FLUENT_SITE_URL,
    );
    vec![current_site, koruma, es_fluent]
}


/// Facts about the first entry with id `id` from `k` on: it has that id and no entry
/// between `k` and it does; when there is none, no entry from `k` on has that id.
proof fn lemma_first_with_id(projects: Seq<ProjectOption>, id: Seq<char>, k: int)
    requires
        0 <= k,
    ensures
        match first_with_id(projects, id, k) {
            Some(i) => k <= i < projects.len() && projects[i].id@ == id && forall|j: int|
                k <= j < i ==> projects[j].id@ != id,
            None => forall|j: int| k <= j < projects.len() ==> projects[j].id@ != id,
        },
    decreases projects.len() - k,
{
    if k < projects.len() && projects[k].id@ != id {
        lemma_first_with_id(projects, id, k + 1);
    }
}

/// The switcher's trigger shows the first entry whose id is the current id when some entry
/// has it, and the selected entry otherwise.
pub proof fn lemma_trigger_shows_current_project(
    projects: Seq<ProjectOption>,
    current_id: Option<Seq<char>>,
    selected: ProjectOption,
)
    ensures
        ({
            let r = spec_trigger_project(projects, current_id, selected);
            &&& (current_id matches Some(id) && exists|i: int|
                0 <= i < projects.len() && #[trigger] projects[i].id@ == id) ==> exists|i: int|
                0 <= i < projects.len() && r == projects[i] && r.id@ == current_id->0 && forall|j: int|
                    0 <= j < i ==> #[trigger] projects[j].id@ != current_id->0
            &&& !(current_id matches Some(id) && exists|i: int|
                0 <= i < projects.len() && #[trigger] projects[i].id@ == id) ==> r == selected
        }),
{
    if let Some(id) = current_id {
        lemma_first_with_id(projects, id, 0);
    }
}

/// Picking a project opens the first entry with the picked id, and only when something was
/// picked, the pick differs from the current project and some entry has that id; otherwise
/// nothing opens.
pub proof fn lemma_project_to_open_picks_first_entry(
    projects: Seq<ProjectOption>,
    current_id: Option<Seq<char>>,
    next_id: Option<Seq<char>>,
)
    ensures
        spec_project_to_open(projects, current_id, next_id) is Some <==> (next_id matches Some(n)
            && current_id != Some(n) && exists|i: int|
            0 <= i < projects.len() && #[trigger] projects[i].id@ == n),
        spec_project_to_open(projects, current_id, next_id) matches Some(o) ==> exists|i: int|
            0 <= i < projects.len() && o == projects[i] && o.id@ == next_id->0 && forall|j: int|
                0 <= j < i ==> #[trigger] projects[j].id@ != next_id->0,
{
    if let Some(n) = next_id {
        lemma_first_with_id(projects, n, 0);
    }
}
} // verus!
