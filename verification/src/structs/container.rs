//! Containers of Docker Compose projects.

use vstd::prelude::*;

verus! {

/// What [`ComposeContainer`] stands for.
pub struct ComposeContainerView {
    pub id: Seq<char>,
    pub name: Seq<char>,
    pub service: Seq<char>,
    pub project: Seq<char>,
    pub working_dir: Seq<char>,
    pub config_files: Seq<char>,
}

/// A running container that belongs to a Docker Compose project.
///
/// It leads from an available image update back to the project, and the folder, that can
/// apply it. The fields come from the `com.docker.compose.*` labels that Docker writes onto
/// every compose-managed container; a container without them is not represented.
#[derive(Debug, PartialEq)]
pub struct ComposeContainer {
    /// Full container ID.
    pub id: String,
    /// Container name, without Docker's leading `/`.
    pub name: String,
    /// Compose service name (`com.docker.compose.service`).
    pub service: String,
    /// Compose project name (`com.docker.compose.project`).
    pub project: String,
    /// Absolute path of the project directory (`com.docker.compose.project.working_dir`).
    pub working_dir: String,
    /// Compose config file paths (`com.docker.compose.project.config_files`).
    pub config_files: String,
}

impl View for ComposeContainer {
    type V = ComposeContainerView;

    open spec fn view(&self) -> ComposeContainerView {
        ComposeContainerView {
            id: self.id@,
            name: self.name@,
            service: self.service@,
            project: self.project@,
            working_dir: self.working_dir@,
            config_files: self.config_files@,
        }
    }
}

impl Clone for ComposeContainer {
    fn clone(&self) -> (r: Self)
        ensures
            r@ == self@,
    {
        ComposeContainer {
            id: self.id.clone(),
            name: self.name.clone(),
            service: self.service.clone(),
            project: self.project.clone(),
            working_dir: self.working_dir.clone(),
            config_files: self.config_files.clone(),
        }
    }
}

impl Default for ComposeContainer {
    fn default() -> (r: Self)
        ensures
            r.id@.len() == 0,
            r.name@.len() == 0,
            r.service@.len() == 0,
            r.project@.len() == 0,
            r.working_dir@.len() == 0,
            r.config_files@.len() == 0,
    {
        ComposeContainer {
            id: String::new(),
            name: String::new(),
            service: String::new(),
            project: String::new(),
            working_dir: String::new(),
            config_files: String::new(),
        }
    }
}

/// The views of a list of containers.
pub open spec fn container_views(items: Seq<ComposeContainer>) -> Seq<ComposeContainerView> {
    items.map_values(|c: ComposeContainer| c@)
}

/// A copy of a list of containers.
pub fn clone_containers(items: &Vec<ComposeContainer>) -> (r: Vec<ComposeContainer>)
    ensures
        container_views(r@) == container_views(items@),
{
    let r = items.clone();
    assert(container_views(r@) =~= container_views(items@)) by {
        assert forall|i: int| 0 <= i < items@.len() implies (#[trigger] r@[i])@ == items@[i]@ by {
            assert(cloned::<ComposeContainer>(items@[i], r@[i]));
        }
    }
    r
}

} // verus!
