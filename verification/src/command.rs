//! The vocabulary of commands: the kinds, what each carries, and the shape
//! of the response that each declares.

use vstd::prelude::*;
use crate::text::same_text;
use crate::value::{ResponseValue, Tree};

verus! {

/// The kind of a command or query: which host operation it stands for.
#[derive(Clone, Copy, PartialEq, Eq, Structural, Debug)]
pub enum CommandKind {
    GetSong,
    GetEntity,
    GetCurrentSong,
    GetPlayerState,
    GetVolume,
    GetTime,
    GetQueue,
    GetPreference,
    SetPreference,
    GetSecure,
    SetSecure,
    AddSongs,
    RemoveSong,
    UpdateSong,
    AddPlaylist,
    AddToPlaylist,
    RegisterOAuth,
    OpenExternalUrl,
    UpdateAccounts,
    ExtensionsUpdated,
}

/// How a kind is answered from the pool of mock responses.
#[derive(Clone, Copy, PartialEq, Eq, Structural, Debug)]
pub enum Category {
    /// The query carries data; the first record of the kind answers it.
    Parameterized,
    /// The query carries nothing; the first record of the kind answers it.
    Parameterless,
    /// The query carries a key; the first record of the kind with that key
    /// answers it.
    Selector,
}

/// The shape of the response that a kind declares.
#[derive(Clone, Copy, PartialEq, Eq, Structural, Debug)]
pub enum Shape {
    /// Any value.
    Any,
    /// An object or nothing.
    Optional,
    /// An array.
    List,
    /// A boolean.
    Flag,
    /// A number.
    Number,
    /// A text.
    Text,
    /// An object.
    Record,
    /// An object with a text member `key`.
    Keyed,
}

/// All that is known of a kind, in one place: its names, its category and
/// the shape of its response.
#[derive(Debug)]
pub struct KindInfo {
    pub kind: CommandKind,
    pub category: Category,
    pub shape: Shape,
}

/// The category of each kind.
pub open spec fn category_of(kind: CommandKind) -> Category {
    match kind {
        CommandKind::GetPreference | CommandKind::GetSecure => Category::Selector,
        CommandKind::GetCurrentSong
        | CommandKind::GetPlayerState
        | CommandKind::GetVolume
        | CommandKind::GetTime
        | CommandKind::GetQueue
        | CommandKind::ExtensionsUpdated => Category::Parameterless,
        _ => Category::Parameterized,
    }
}

/// The response shape of each kind.
pub open spec fn shape_of(kind: CommandKind) -> Shape {
    match kind {
        CommandKind::GetSong | CommandKind::AddSongs => Shape::List,
        CommandKind::GetEntity | CommandKind::GetQueue => Shape::Any,
        CommandKind::GetCurrentSong => Shape::Optional,
        CommandKind::GetPlayerState | CommandKind::AddPlaylist => Shape::Text,
        CommandKind::GetVolume | CommandKind::GetTime => Shape::Number,
        CommandKind::GetPreference | CommandKind::GetSecure => Shape::Keyed,
        CommandKind::UpdateSong => Shape::Record,
        _ => Shape::Flag,
    }
}

/// The name of each kind in a trace document.
pub open spec fn wire_name(kind: CommandKind) -> Seq<char> {
    match kind {
        CommandKind::GetSong => "getSong"@,
        CommandKind::GetEntity => "getEntity"@,
        CommandKind::GetCurrentSong => "getCurrentSong"@,
        CommandKind::GetPlayerState => "getPlayerState"@,
        CommandKind::GetVolume => "getVolume"@,
        CommandKind::GetTime => "getTime"@,
        CommandKind::GetQueue => "getQueue"@,
        CommandKind::GetPreference => "getPreference"@,
        CommandKind::SetPreference => "setPreference"@,
        CommandKind::GetSecure => "getSecure"@,
        CommandKind::SetSecure => "setSecure"@,
        CommandKind::AddSongs => "addSongs"@,
        CommandKind::RemoveSong => "removeSong"@,
        CommandKind::UpdateSong => "updateSong"@,
        CommandKind::AddPlaylist => "addPlaylist"@,
        CommandKind::AddToPlaylist => "addToPlaylist"@,
        CommandKind::RegisterOAuth => "registerOAuth"@,
        CommandKind::OpenExternalUrl => "openExternalUrl"@,
        CommandKind::UpdateAccounts => "updateAccounts"@,
        CommandKind::ExtensionsUpdated => "extensionsUpdated"@,
    }
}

/// The name of each kind in a description.
pub open spec fn display_name(kind: CommandKind) -> Seq<char> {
    match kind {
        CommandKind::GetSong => "GetSong"@,
        CommandKind::GetEntity => "GetEntity"@,
        CommandKind::GetCurrentSong => "GetCurrentSong"@,
        CommandKind::GetPlayerState => "GetPlayerState"@,
        CommandKind::GetVolume => "GetVolume"@,
        CommandKind::GetTime => "GetTime"@,
        CommandKind::GetQueue => "GetQueue"@,
        CommandKind::GetPreference => "GetPreference"@,
        CommandKind::SetPreference => "SetPreference"@,
        CommandKind::GetSecure => "GetSecure"@,
        CommandKind::SetSecure => "SetSecure"@,
        CommandKind::AddSongs => "AddSongs"@,
        CommandKind::RemoveSong => "RemoveSong"@,
        CommandKind::UpdateSong => "UpdateSong"@,
        CommandKind::AddPlaylist => "AddPlaylist"@,
        CommandKind::AddToPlaylist => "AddToPlaylist"@,
        CommandKind::RegisterOAuth => "RegisterOAuth"@,
        CommandKind::OpenExternalUrl => "OpenExternalUrl"@,
        CommandKind::UpdateAccounts => "UpdateAccounts"@,
        CommandKind::ExtensionsUpdated => "ExtensionsUpdated"@,
    }
}

/// No two kinds have the same name in a trace document.
pub proof fn lemma_wire_names_differ(a: CommandKind, b: CommandKind)
    requires
        a != b,
    ensures
        wire_name(a) != wire_name(b),
{
    reveal_strlit("getSong");
    reveal_strlit("getEntity");
    reveal_strlit("getCurrentSong");
    reveal_strlit("getPlayerState");
    reveal_strlit("getVolume");
    reveal_strlit("getTime");
    reveal_strlit("getQueue");
    reveal_strlit("getPreference");
    reveal_strlit("setPreference");
    reveal_strlit("getSecure");
    reveal_strlit("setSecure");
    reveal_strlit("addSongs");
    reveal_strlit("removeSong");
    reveal_strlit("updateSong");
    reveal_strlit("addPlaylist");
    reveal_strlit("addToPlaylist");
    reveal_strlit("registerOAuth");
    reveal_strlit("openExternalUrl");
    reveal_strlit("updateAccounts");
    reveal_strlit("extensionsUpdated");
    let x = wire_name(a);
    let y = wire_name(b);
    if x.len() == y.len() {
        assert(x[0] != y[0] || x[3] != y[3] || x[4] != y[4] || x[6] != y[6]);
    }
}

/// The kind that a name of a trace document stands for, if it is one.
pub open spec fn kind_named(name: Seq<char>) -> Option<CommandKind> {
    if exists|k: CommandKind| wire_name(k) == name {
        Some(choose|k: CommandKind| wire_name(k) == name)
    } else {
        None
    }
}

/// Each kind is the one that its own name stands for.
pub proof fn lemma_kind_named(kind: CommandKind)
    ensures
        kind_named(wire_name(kind)) == Some(kind),
{
    let c = choose|k: CommandKind| wire_name(k) == wire_name(kind);
    if c != kind {
        lemma_wire_names_differ(c, kind);
    }
}

impl CommandKind {
    /// The kind's category.
    pub fn category(self) -> (c: Category)
        ensures
            c == category_of(self),
    {
        match self {
            CommandKind::GetPreference | CommandKind::GetSecure => Category::Selector,
            CommandKind::GetCurrentSong
            | CommandKind::GetPlayerState
            | CommandKind::GetVolume
            | CommandKind::GetTime
            | CommandKind::GetQueue
            | CommandKind::ExtensionsUpdated => Category::Parameterless,
            _ => Category::Parameterized,
        }
    }

    /// The shape of the kind's response.
    pub fn shape(self) -> (s: Shape)
        ensures
            s == shape_of(self),
    {
        match self {
            CommandKind::GetSong | CommandKind::AddSongs => Shape::List,
            CommandKind::GetEntity | CommandKind::GetQueue => Shape::Any,
            CommandKind::GetCurrentSong => Shape::Optional,
            CommandKind::GetPlayerState | CommandKind::AddPlaylist => Shape::Text,
            CommandKind::GetVolume | CommandKind::GetTime => Shape::Number,
            CommandKind::GetPreference | CommandKind::GetSecure => Shape::Keyed,
            CommandKind::UpdateSong => Shape::Record,
            _ => Shape::Flag,
        }
    }

    /// All that is known of the kind.
    pub fn info(self) -> (info: KindInfo)
        ensures
            info.kind == self,
            info.category == category_of(self),
            info.shape == shape_of(self),
    {
        KindInfo { kind: self, category: self.category(), shape: self.shape() }
    }

    /// The kind's name in a trace document.
    pub fn name(self) -> (name: &'static str)
        ensures
            name@ == wire_name(self),
    {
        match self {
            CommandKind::GetSong => "getSong",
            CommandKind::GetEntity => "getEntity",
            CommandKind::GetCurrentSong => "getCurrentSong",
            CommandKind::GetPlayerState => "getPlayerState",
            CommandKind::GetVolume => "getVolume",
            CommandKind::GetTime => "getTime",
            CommandKind::GetQueue => "getQueue",
            CommandKind::GetPreference => "getPreference",
            CommandKind::SetPreference => "setPreference",
            CommandKind::GetSecure => "getSecure",
            CommandKind::SetSecure => "setSecure",
            CommandKind::AddSongs => "addSongs",
            CommandKind::RemoveSong => "removeSong",
            CommandKind::UpdateSong => "updateSong",
            CommandKind::AddPlaylist => "addPlaylist",
            CommandKind::AddToPlaylist => "addToPlaylist",
            CommandKind::RegisterOAuth => "registerOAuth",
            CommandKind::OpenExternalUrl => "openExternalUrl",
            CommandKind::UpdateAccounts => "updateAccounts",
            CommandKind::ExtensionsUpdated => "extensionsUpdated",
        }
    }

    /// The kind's name in a description.
    pub fn label(self) -> (name: &'static str)
        ensures
            name@ == display_name(self),
    {
        match self {
            CommandKind::GetSong => "GetSong",
            CommandKind::GetEntity => "GetEntity",
            CommandKind::GetCurrentSong => "GetCurrentSong",
            CommandKind::GetPlayerState => "GetPlayerState",
            CommandKind::GetVolume => "GetVolume",
            CommandKind::GetTime => "GetTime",
            CommandKind::GetQueue => "GetQueue",
            CommandKind::GetPreference => "GetPreference",
            CommandKind::SetPreference => "SetPreference",
            CommandKind::GetSecure => "GetSecure",
            CommandKind::SetSecure => "SetSecure",
            CommandKind::AddSongs => "AddSongs",
            CommandKind::RemoveSong => "RemoveSong",
            CommandKind::UpdateSong => "UpdateSong",
            CommandKind::AddPlaylist => "AddPlaylist",
            CommandKind::AddToPlaylist => "AddToPlaylist",
            CommandKind::RegisterOAuth => "RegisterOAuth",
            CommandKind::OpenExternalUrl => "OpenExternalUrl",
            CommandKind::UpdateAccounts => "UpdateAccounts",
            CommandKind::ExtensionsUpdated => "ExtensionsUpdated",
        }
    }

    /// The kind that a name of a trace document stands for.
    pub fn from_name(name: &str) -> (kind: Option<CommandKind>)
        ensures
            kind == kind_named(name@),
            match kind {
                Some(k) => name@ == wire_name(k),
                None => forall|k: CommandKind| name@ != wire_name(k),
            },
    {
        let all = [
            CommandKind::GetSong,
            CommandKind::GetEntity,
            CommandKind::GetCurrentSong,
            CommandKind::GetPlayerState,
            CommandKind::GetVolume,
            CommandKind::GetTime,
            CommandKind::GetQueue,
            CommandKind::GetPreference,
            CommandKind::SetPreference,
            CommandKind::GetSecure,
            CommandKind::SetSecure,
            CommandKind::AddSongs,
            CommandKind::RemoveSong,
            CommandKind::UpdateSong,
            CommandKind::AddPlaylist,
            CommandKind::AddToPlaylist,
            CommandKind::RegisterOAuth,
            CommandKind::OpenExternalUrl,
            CommandKind::UpdateAccounts,
            CommandKind::ExtensionsUpdated,
        ];
        let mut i: usize = 0;
        while i < 20
            invariant
                0 <= i <= 20,
                all@.len() == 20,
                all@[0] == CommandKind::GetSong,
                all@[1] == CommandKind::GetEntity,
                all@[2] == CommandKind::GetCurrentSong,
                all@[3] == CommandKind::GetPlayerState,
                all@[4] == CommandKind::GetVolume,
                all@[5] == CommandKind::GetTime,
                all@[6] == CommandKind::GetQueue,
                all@[7] == CommandKind::GetPreference,
                all@[8] == CommandKind::SetPreference,
                all@[9] == CommandKind::GetSecure,
                all@[10] == CommandKind::SetSecure,
                all@[11] == CommandKind::AddSongs,
                all@[12] == CommandKind::RemoveSong,
                all@[13] == CommandKind::UpdateSong,
                all@[14] == CommandKind::AddPlaylist,
                all@[15] == CommandKind::AddToPlaylist,
                all@[16] == CommandKind::RegisterOAuth,
                all@[17] == CommandKind::OpenExternalUrl,
                all@[18] == CommandKind::UpdateAccounts,
                all@[19] == CommandKind::ExtensionsUpdated,
                forall|j: int| 0 <= j < i ==> name@ != wire_name(#[trigger] all@[j]),
            decreases 20 - i,
        {
            if same_text(name, all[i].name()) {
                proof {
                    lemma_kind_named(all@[i as int]);
                }
                return Some(all[i]);
            }
            i += 1;
        }
        assert forall|k: CommandKind| name@ != wire_name(k) by {
            let j = choose|j: int| 0 <= j < 20 && all@[j] == k;
            assert(0 <= j < 20 && all@[j] == k);
        }
        None
    }
}

/// What a command carries, by the category of its kind.
#[derive(Debug)]
pub enum Payload {
    /// Nothing: a parameterless kind.
    Empty,
    /// The extension that asks and the key it asks for: a selector kind.
    Selector { extension: String, key: String },
    /// Data: a parameterized kind.
    Data(ResponseValue),
}

/// The model of a payload.
pub enum PayloadModel {
    Empty,
    Selector { extension: Seq<char>, key: Seq<char> },
    Data(Tree),
}

impl View for Payload {
    type V = PayloadModel;

    open spec fn view(&self) -> PayloadModel {
        match self {
            Payload::Empty => PayloadModel::Empty,
            Payload::Selector { extension, key } => PayloadModel::Selector {
                extension: extension@,
                key: key@,
            },
            Payload::Data(v) => PayloadModel::Data(v@),
        }
    }
}

impl Clone for Payload {
    fn clone(&self) -> (out: Payload)
        ensures
            out@ == self@,
    {
        match self {
            Payload::Empty => Payload::Empty,
            Payload::Selector { extension, key } => Payload::Selector {
                extension: extension.clone(),
                key: key.clone(),
            },
            Payload::Data(v) => Payload::Data(v.clone()),
        }
    }
}

/// One command to the host, or one query from it: a kind and what it
/// carries.
#[derive(Debug)]
pub struct CommandDescriptor {
    pub kind: CommandKind,
    pub payload: Payload,
}

/// The model of a command.
pub struct CommandModel {
    pub kind: CommandKind,
    pub payload: PayloadModel,
}

impl View for CommandDescriptor {
    type V = CommandModel;

    open spec fn view(&self) -> CommandModel {
        CommandModel { kind: self.kind, payload: self.payload@ }
    }
}

impl Clone for CommandDescriptor {
    fn clone(&self) -> (out: CommandDescriptor)
        ensures
            out@ == self@,
    {
        CommandDescriptor { kind: self.kind, payload: self.payload.clone() }
    }
}

/// Whether a payload is of the form that the category asks for.
pub open spec fn payload_fits(category: Category, payload: PayloadModel) -> bool {
    match category {
        Category::Parameterless => payload is Empty,
        Category::Selector => payload is Selector,
        Category::Parameterized => payload is Data,
    }
}

impl CommandDescriptor {
    /// The command's invariant: what it carries is of the form that its
    /// kind asks for.
    pub open spec fn well_formed(&self) -> bool {
        payload_fits(category_of(self.kind), self.payload@)
    }

    /// Whether the command meets its invariant.
    pub fn is_well_formed(&self) -> (ok: bool)
        ensures
            ok == self.well_formed(),
    {
        match self.kind.category() {
            Category::Parameterless => match &self.payload {
                Payload::Empty => true,
                _ => false,
            },
            Category::Selector => match &self.payload {
                Payload::Selector { .. } => true,
                _ => false,
            },
            Category::Parameterized => match &self.payload {
                Payload::Data(_) => true,
                _ => false,
            },
        }
    }
}

} // verus!
