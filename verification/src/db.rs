//! The decisions and display text of the project-bookkeeping commands.
//!
//! The database itself is an external collaborator; what is decided here is
//! which database action a command asks for, and how the stored projects are
//! listed for the user.

use vstd::prelude::*;

use crate::strings::str_eq;

verus! {

#[derive(Debug, PartialEq, Eq, Structural, Clone, Copy)]
pub enum DBError {
    NotEnoughArguments,
    NoSuchProject,
}

impl DBError {
    /// The user-facing description of the error.
    pub fn message(&self) -> (r: String)
        ensures
            *self == DBError::NotEnoughArguments ==> r@ == "Not enough arguments"@,
            *self == DBError::NoSuchProject ==> r@ == "No such project"@,
    {
        match self {
            DBError::NotEnoughArguments => String::from_str("Not enough arguments"),
            DBError::NoSuchProject => String::from_str("No such project"),
        }
    }
}

/// The database action a `set-project` invocation asks for.
#[derive(Debug)]
pub enum ProjectAction {
    /// Rename the project with this id to this name, then select it.
    UpdateName(String, String),
    /// Check that a project with this id exists, then select it.
    CheckExists(String),
    /// Create a project with this name, then select it.
    Create(String),
}

pub ghost struct ProjectActionV {
    pub update: Option<(Seq<char>, Seq<char>)>,
    pub check: Option<Seq<char>>,
    pub create: Option<Seq<char>>,
}

impl View for ProjectAction {
    type V = ProjectActionV;

    open spec fn view(&self) -> ProjectActionV {
        match self {
            ProjectAction::UpdateName(id, name) => ProjectActionV {
                update: Some((id@, name@)),
                check: None,
                create: None,
            },
            ProjectAction::CheckExists(id) => ProjectActionV {
                update: None,
                check: Some(id@),
                create: None,
            },
            ProjectAction::Create(name) => ProjectActionV {
                update: None,
                check: None,
                create: Some(name@),
            },
        }
    }
}

/// Decides what `set-project` does: with an id and a name the project is
/// renamed; with an id alone its existence is checked; with a name alone a
/// project is created; with neither the command is an error.
pub fn project_action(project_id: Option<String>, name: Option<String>) -> (r: Result<
    ProjectAction,
    DBError,
>)
    ensures
        match (project_id, name) {
            (Some(id), Some(nm)) => r matches Ok(a) && a@ == (ProjectActionV {
                update: Some((id@, nm@)),
                check: None,
                create: None,
            }),
            (Some(id), None) => r matches Ok(a) && a@ == (ProjectActionV {
                update: None,
                check: Some(id@),
                create: None,
            }),
            (None, Some(nm)) => r matches Ok(a) && a@ == (ProjectActionV {
                update: None,
                check: None,
                create: Some(nm@),
            }),
            (None, None) => r == Err::<ProjectAction, DBError>(DBError::NotEnoughArguments),
        },
{
    match (project_id, name) {
        (Some(id), Some(nm)) => Ok(ProjectAction::UpdateName(id, nm)),
        (Some(id), None) => Ok(ProjectAction::CheckExists(id)),
        (None, Some(nm)) => Ok(ProjectAction::Create(nm)),
        (None, None) => Err(DBError::NotEnoughArguments),
    }
}

/// One stored project as shown by the listing: its id (empty when the store
/// assigned none), its name, and its creation time already formatted.
pub struct ProjectEntry {
    pub id: String,
    pub name: String,
    pub created_at: String,
}

pub ghost struct ProjectEntryV {
    pub id: Seq<char>,
    pub name: Seq<char>,
    pub created_at: Seq<char>,
}

impl View for ProjectEntry {
    type V = ProjectEntryV;

    open spec fn view(&self) -> ProjectEntryV {
        ProjectEntryV { id: self.id@, name: self.name@, created_at: self.created_at@ }
    }
}

pub open spec fn entries_view(v: Seq<ProjectEntry>) -> Seq<ProjectEntryV> {
    v.map_values(|e: ProjectEntry| e@)
}

/// One line of the project listing; the selected project is marked `V`,
/// every other one `-`.
pub open spec fn listing_line(e: ProjectEntryV, project_id: Seq<char>) -> Seq<char> {
    "    "@ + (if project_id == e.id {
        "V"@
    } else {
        "-"@
    }) + " "@ + e.id + ": "@ + e.name + ", "@ + e.created_at + "\n"@
}

pub open spec fn listing_lines(entries: Seq<ProjectEntryV>, project_id: Seq<char>) -> Seq<char>
    decreases entries.len(),
{
    if entries.len() == 0 {
        Seq::empty()
    } else {
        listing_line(entries[0], project_id) + listing_lines(entries.drop_first(), project_id)
    }
}

/// The full status text: the database URL (or a placeholder when unset), the
/// selected project id, and — when a database is configured — the stored
/// projects, one line each.
pub open spec fn spec_db_listing(
    db_url: Seq<char>,
    project_id: Seq<char>,
    entries: Seq<ProjectEntryV>,
) -> Seq<char> {
    (if db_url.len() > 0 {
        "db_url: "@ + db_url + "\n"@
    } else {
        "db_url: <NOT SET>\n"@
    }) + "project_id: "@ + project_id + "\n"@ + (if db_url.len() > 0 {
        "projects:\n"@ + listing_lines(entries, project_id)
    } else {
        Seq::empty()
    })
}

fn write_listing_lines(out: &mut String, entries: &Vec<ProjectEntry>, project_id: &str, i: usize)
    requires
        i <= entries@.len(),
    ensures
        final(out)@ == old(out)@ + listing_lines(entries_view(entries@).skip(i as int), project_id@),
    decreases entries@.len() - i,
{
    let ghost ev = entries_view(entries@);
    let n = entries.len();
    if i >= n {
        proof {
            assert(ev.skip(i as int).len() == 0);
            assert(out@ =~= old(out)@ + listing_lines(ev.skip(i as int), project_id@));
        }
        return;
    }
    proof {
        assert(ev.skip(i as int)[0] == ev[i as int]);
        assert(ev[i as int] == entries@[i as int]@);
        assert(ev.skip(i as int).drop_first() =~= ev.skip(i as int + 1));
    }
    out.append("    ");
    if str_eq(project_id, entries[i].id.as_str()) {
        out.append("V");
    } else {
        out.append("-");
    }
    out.append(" ");
    out.append(entries[i].id.as_str());
    out.append(": ");
    out.append(entries[i].name.as_str());
    out.append(", ");
    out.append(entries[i].created_at.as_str());
    out.append("\n");
    proof {
        assert(out@ =~= old(out)@ + listing_line(ev[i as int], project_id@));
    }
    write_listing_lines(out, entries, project_id, i + 1);
    proof {
        assert(out@ =~= old(out)@ + listing_lines(ev.skip(i as int), project_id@));
    }
}

/// Builds the status text shown by the database command: exactly
/// `spec_db_listing` of the URL, the selected project id (empty when none is
/// selected), and the stored projects.
pub fn format_db_listing(db_url: &str, project_id: &str, projects: &Vec<ProjectEntry>) -> (r:
    String)
    ensures
        r@ == spec_db_listing(db_url@, project_id@, entries_view(projects@)),
{
    let mut out = String::new();
    if !db_url.is_empty() {
        out.append("db_url: ");
        out.append(db_url);
        out.append("\n");
    } else {
        out.append("db_url: <NOT SET>\n");
    }
    out.append("project_id: ");
    out.append(project_id);
    out.append("\n");
    if !db_url.is_empty() {
        out.append("projects:\n");
        proof {
            assert(entries_view(projects@).skip(0) =~= entries_view(projects@));
        }
        write_listing_lines(&mut out, projects, project_id, 0);
    }
    proof {
        assert(out@ =~= spec_db_listing(db_url@, project_id@, entries_view(projects@)));
    }
    out
}

} // verus!
