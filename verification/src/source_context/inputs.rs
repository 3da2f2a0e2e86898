//! What was captured of the host: variables and directories.
use vstd::prelude::*;
use vstd::utf8::*;

use crate::ordered::SortedTable;
use crate::source_context::catalog::UnixOs;
use crate::source_context::paths::path_of;
use crate::source_context::places::{ValueModel, VariableValue};
use crate::text::utf8_text;

verus! {

/// What is known of a variable.
#[derive(Debug, Clone, Copy, PartialEq, Eq, Structural)]
pub enum InputState {
    Unset,
    Empty,
    Value,
}

impl InputState {
    /// The byte that stands for a state in a descriptor.
    pub open spec fn code(self) -> u8 {
        match self {
            InputState::Unset => 0,
            InputState::Empty => 1,
            InputState::Value => 2,
        }
    }

    pub fn tag(self) -> (tag: u8)
        ensures
            tag == self.code(),
    {
        match self {
            InputState::Unset => 0,
            InputState::Empty => 1,
            InputState::Value => 2,
        }
    }
}

/// A variable of the environment.
#[derive(Debug, Clone, PartialEq, Eq)]
pub struct EnvValue {
    pub key: String,
    pub value: Option<Vec<u8>>,
}

/// What the platform says.
#[derive(Debug, Clone, PartialEq, Eq)]
pub struct PlatformInputs {
    pub target_os: UnixOs,
    pub config_dir: Option<Vec<u8>>,
    pub data_local_dir: Option<Vec<u8>>,
    pub home_dir: Option<Vec<u8>>,
    pub temp_dir: Vec<u8>,
    /// The effective user id of the process.
    pub user_id: u32,
}

/// A directory that the variable for further directories lists for a client.
#[derive(Debug, Clone, PartialEq, Eq)]
pub struct ExtraDir {
    pub client: u32,
    pub path: Vec<u8>,
}

/// A directory of a client.
pub ghost struct DirModel {
    pub client: u32,
    pub path: Seq<u8>,
}

impl View for ExtraDir {
    type V = DirModel;

    open spec fn view(&self) -> DirModel {
        DirModel { client: self.client, path: self.path@ }
    }
}

/// What was captured of the host.
pub struct SourceResolutionInputs {
    values: SortedTable<String, Option<Vec<u8>>>,
    platform: PlatformInputs,
    extra_dirs: Vec<ExtraDir>,
}

/// The value that a list of variables gives to one: the last, if it is there more than once.
pub open spec fn env_value(variables: Seq<EnvValue>, key: Seq<char>) -> Option<Seq<u8>>
    decreases variables.len(),
{
    if variables.len() == 0 {
        None
    } else if variables.last().key@ == key {
        path_of(variables.last().value)
    } else {
        env_value(variables.drop_last(), key)
    }
}

/// A value that is text.
pub open spec fn unicode(value: Option<Seq<u8>>) -> Option<Seq<char>> {
    match value {
        Some(value) if valid_utf8(value) => Some(decode_utf8(value)),
        _ => None,
    }
}

/// What is known of a value.
pub open spec fn value_model(value: Option<Seq<u8>>) -> ValueModel {
    match value {
        None => ValueModel::Unset,
        Some(value) => if valid_utf8(value) {
            ValueModel::Text(decode_utf8(value))
        } else {
            ValueModel::NoText
        },
    }
}

/// Tells what is known of a value.
pub fn variable_value(value: Option<&Vec<u8>>) -> (known: VariableValue)
    ensures
        known@ == value_model(
            match value {
                Some(value) => Some(value@),
                None => None,
            },
        ),
{
    match value {
        None => VariableValue::Unset,
        Some(value) => match utf8_text(value.as_slice()) {
            Some(text) => VariableValue::Text(text),
            None => VariableValue::NoText,
        },
    }
}

impl SourceResolutionInputs {
    pub closed spec fn wf(self) -> bool {
        self.values.wf()
    }

    /// The value of a variable, if it is set.
    pub closed spec fn value(self, key: Seq<char>) -> Option<Seq<u8>> {
        match self.values.get(key) {
            Some(value) => path_of(value),
            None => None,
        }
    }

    /// What the platform says.
    pub closed spec fn host(self) -> PlatformInputs {
        self.platform
    }

    /// What the variable for further directories lists.
    pub closed spec fn listed_dirs(self) -> Seq<ExtraDir> {
        self.extra_dirs@
    }

    /// Takes what was captured: variables, what the platform says, and the directories that the
    /// value of the variable for further directories lists.
    pub fn capture_with(
        variables: Vec<EnvValue>,
        platform: PlatformInputs,
        extra_dirs: Vec<ExtraDir>,
    ) -> (inputs: Self)
        ensures
            inputs.wf(),
            forall|key: Seq<char>| #[trigger] inputs.value(key) == env_value(variables@, key),
            inputs.host() == platform,
            inputs.listed_dirs() == extra_dirs@,
    {
        let mut values: SortedTable<String, Option<Vec<u8>>> = SortedTable::new();
        let mut i: usize = 0;
        while i < variables.len()
            invariant
                i <= variables@.len(),
                values.wf(),
                forall|key: Seq<char>|
                    (match #[trigger] values.get(key) {
                        Some(value) => path_of(value),
                        None => None,
                    }) == env_value(variables@.take(i as int), key),
            decreases variables@.len() - i,
        {
            proof {
                assert(variables@.take(i + 1).drop_last() =~= variables@.take(i as int));
                assert(variables@.take(i + 1).last() == variables@[i as int]);
            }
            let value = crate::source_context::paths::copy_path(&variables[i].value);
            values.set(variables[i].key.clone(), value);
            i = i + 1;
        }
        assert(variables@.take(i as int) =~= variables@);
        SourceResolutionInputs { values, platform, extra_dirs }
    }

    pub fn platform(&self) -> (platform: &PlatformInputs)
        ensures
            *platform == self.host(),
    {
        &self.platform
    }

    pub fn extra_dirs(&self) -> (dirs: &Vec<ExtraDir>)
        ensures
            dirs@ == self.listed_dirs(),
    {
        &self.extra_dirs
    }

    /// The value of a variable.
    pub fn var_os(&self, key: &str) -> (value: Option<&Vec<u8>>)
        requires
            self.wf(),
        ensures
            match value {
                Some(value) => self.value(key@) == Some(value@),
                None => self.value(key@) is None,
            },
    {
        let key = key.to_owned();
        match self.values.lookup(&key) {
            Some(value) => match value {
                Some(value) => Some(value),
                None => None,
            },
            None => None,
        }
    }

    /// The value of a variable, where it is not empty.
    pub fn var_nonempty(&self, key: &str) -> (value: Option<&Vec<u8>>)
        requires
            self.wf(),
        ensures
            match value {
                Some(value) => self.value(key@) == Some(value@) && value@.len() > 0,
                None => self.value(key@) is None || self.value(key@)->0.len() == 0,
            },
    {
        match self.var_os(key) {
            Some(value) => if value.len() == 0 {
                None
            } else {
                Some(value)
            },
            None => None,
        }
    }

    /// The value of a variable, where it is text.
    pub fn var_string(&self, key: &str) -> (value: Option<&str>)
        requires
            self.wf(),
        ensures
            match value {
                Some(value) => unicode(self.value(key@)) == Some(value@),
                None => unicode(self.value(key@)) is None,
            },
    {
        match self.var_os(key) {
            Some(value) => utf8_text(value.as_slice()),
            None => None,
        }
    }
}

} // verus!
