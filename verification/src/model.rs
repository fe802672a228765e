//! Descriptions of the models the service fronts: their names, licensing,
//! repository coordinates, and the task domain each one serves. The
//! numerical model internals are external collaborators and stay outside
//! the library.

use vstd::prelude::*;

verus! {

/// The common description of a hosted model.
#[derive(Debug)]
pub struct ModelBase {
    /// The name of the model.
    pub name: String,
    /// The license of the model.
    pub license: String,
    /// The domain that the model is designed for, including the tasks it
    /// can perform.
    pub domain: ModelDomain,
    /// The id of the model's repository.
    pub repo_id: String,
    /// The revision of the model's repository.
    pub repo_revision: String,
}

/// The domain a model serves, with the tasks it can perform there.
#[derive(Debug)]
pub enum ModelDomain {
    Text(Vec<TextTask>),
    Video(Vec<VideoTask>),
    Audio(AudioTask),
}

/// Tasks of text models.
#[derive(Clone, Copy, Debug, PartialEq, Eq, Structural)]
pub enum TextTask {
    Chat,
    Extract,
    Instruct,
    Sentiment,
    Translate,
    Identify,
}

/// Tasks of video models.
#[derive(Clone, Copy, Debug, PartialEq, Eq, Structural)]
pub enum VideoTask {
    Describe,
    Generate,
}

/// Tasks of audio models.
#[derive(Clone, Copy, Debug, PartialEq, Eq, Structural)]
pub enum AudioTask {
    Transcribe,
}

} // verus!
