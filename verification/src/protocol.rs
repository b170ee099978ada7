//! Wire-protocol data types, their ghost shapes, and the avatar rule.

use vstd::prelude::*;
use vstd::string::StrSliceExecFns;
use vstd::string::StringExecFns;

verus! {

/// The three message kinds this client understands. On the wire each kind is
/// carried as a lower-case string in the envelope's `messageType` field; the
/// field names and these literals are a compatibility contract with the
/// server.
#[derive(Clone, Copy, PartialEq, Eq, Structural, Debug)]
pub enum MsgTypes {
    Users,
    Register,
    Message,
}

impl MsgTypes {
    /// The lower-case wire name of this kind.
    pub open spec fn spec_wire_name(self) -> Seq<char> {
        match self {
            MsgTypes::Users => "users"@,
            MsgTypes::Register => "register"@,
            MsgTypes::Message => "message"@,
        }
    }

    pub fn wire_name(self) -> (r: String)
        ensures
            r@ == self.spec_wire_name(),
    {
        match self {
            MsgTypes::Users => String::from_str("users"),
            MsgTypes::Register => String::from_str("register"),
            MsgTypes::Message => String::from_str("message"),
        }
    }
}

/// The ghost shape of an [`Envelope`].
pub ghost struct EnvelopeView {
    pub message_type: Seq<char>,
    pub data: Option<Seq<char>>,
    pub data_array: Option<Seq<Seq<char>>>,
}

/// The top-level wire unit. `message_type` is kept as the raw string from
/// the wire, so kinds this client does not know are carried through and
/// ignored by the session rather than rejected by the codec.
pub struct Envelope {
    pub message_type: String,
    pub data: Option<String>,
    pub data_array: Option<Vec<String>>,
}

impl View for Envelope {
    type V = EnvelopeView;

    open spec fn view(&self) -> EnvelopeView {
        EnvelopeView {
            message_type: self.message_type@,
            data: self.data.deep_view(),
            data_array: self.data_array.deep_view(),
        }
    }
}

impl DeepView for Envelope {
    type V = EnvelopeView;

    open spec fn deep_view(&self) -> EnvelopeView {
        self.view()
    }
}

impl Envelope {
    /// The envelope a client sends to register `username` with the server.
    pub open spec fn spec_register(username: Seq<char>) -> EnvelopeView {
        EnvelopeView {
            message_type: MsgTypes::Register.spec_wire_name(),
            data: Some(username),
            data_array: None,
        }
    }

    /// The envelope a client wraps an encoded chat payload in.
    pub open spec fn spec_message(payload: Seq<char>) -> EnvelopeView {
        EnvelopeView {
            message_type: MsgTypes::Message.spec_wire_name(),
            data: Some(payload),
            data_array: None,
        }
    }

    pub fn register(username: String) -> (r: Envelope)
        ensures
            r@ == Envelope::spec_register(username@),
    {
        Envelope {
            message_type: MsgTypes::Register.wire_name(),
            data: Some(username),
            data_array: None,
        }
    }

    pub fn message(payload: String) -> (r: Envelope)
        ensures
            r@ == Envelope::spec_message(payload@),
    {
        Envelope {
            message_type: MsgTypes::Message.wire_name(),
            data: Some(payload),
            data_array: None,
        }
    }
}

/// The ghost shape of a [`ChatMessage`].
pub ghost struct MessageView {
    pub from: Seq<char>,
    pub message: Seq<char>,
}

/// The payload nested, JSON-encoded, inside a `Message` envelope's `data`
/// field.
pub struct ChatMessage {
    pub from: String,
    pub message: String,
}

impl View for ChatMessage {
    type V = MessageView;

    open spec fn view(&self) -> MessageView {
        MessageView { from: self.from@, message: self.message@ }
    }
}

impl DeepView for ChatMessage {
    type V = MessageView;

    open spec fn deep_view(&self) -> MessageView {
        self.view()
    }
}

/// The ghost shape of a [`UserProfile`].
pub ghost struct ProfileView {
    pub name: Seq<char>,
    pub avatar: Seq<char>,
}

/// One roster entry: a user's name and the avatar URL derived from it.
pub struct UserProfile {
    pub name: String,
    pub avatar: String,
}

impl View for UserProfile {
    type V = ProfileView;

    open spec fn view(&self) -> ProfileView {
        ProfileView { name: self.name@, avatar: self.avatar@ }
    }
}

impl DeepView for UserProfile {
    type V = ProfileView;

    open spec fn deep_view(&self) -> ProfileView {
        self.view()
    }
}

/// The avatar URL is a pure function of the user's name: every call on the
/// same name yields the same URL.
pub open spec fn spec_avatar_url(name: Seq<char>) -> Seq<char> {
    "https://avatars.dicebear.com/api/adventurer-neutral/"@ + name + ".svg"@
}

pub fn avatar_url(name: &str) -> (r: String)
    ensures
        r@ == spec_avatar_url(name@),
{
    let mut s = String::from_str("https://avatars.dicebear.com/api/adventurer-neutral/");
    s.append(name);
    s.append(".svg");
    s
}

/// The roster entry derived from a plain username.
pub open spec fn spec_profile_of(name: Seq<char>) -> ProfileView {
    ProfileView { name: name, avatar: spec_avatar_url(name) }
}

impl UserProfile {
    pub fn from_name(name: &str) -> (r: UserProfile)
        ensures
            r@ == spec_profile_of(name@),
    {
        UserProfile { name: name.to_owned(), avatar: avatar_url(name) }
    }
}

/// The avatar shown for a sender whose name is not on the current roster.
pub open spec fn spec_fallback_avatar() -> Seq<char> {
    "https://cdn-icons-png.flaticon.com/512/4712/4712035.png"@
}

pub fn fallback_avatar() -> (r: String)
    ensures
        r@ == spec_fallback_avatar(),
{
    String::from_str("https://cdn-icons-png.flaticon.com/512/4712/4712035.png")
}

/// The avatar for a message sender: the avatar of the first roster entry
/// whose name equals `from` exactly, or the fallback avatar if none matches.
pub open spec fn spec_avatar_for(roster: Seq<ProfileView>, from: Seq<char>) -> Seq<char>
    decreases roster.len(),
{
    if roster.len() == 0 {
        spec_fallback_avatar()
    } else if roster[0].name == from {
        roster[0].avatar
    } else {
        spec_avatar_for(roster.skip(1), from)
    }
}

/// Exact string equality on character sequences.
pub fn str_eq(a: &str, b: &str) -> (r: bool)
    ensures
        r == (a@ == b@),
{
    let n = a.unicode_len();
    if n != b.unicode_len() {
        return false;
    }
    let mut i: usize = 0;
    while i < n
        invariant
            0 <= i <= n,
            n == a@.len(),
            n == b@.len(),
            forall|j: int| 0 <= j < i ==> a@[j] == b@[j],
        decreases n - i,
    {
        if a.get_char(i) != b.get_char(i) {
            return false;
        }
        i = i + 1;
    }
    proof {
        assert(a@ =~= b@);
    }
    true
}

pub fn avatar_for(roster: &Vec<UserProfile>, from: &str) -> (r: String)
    ensures
        r@ == spec_avatar_for(roster.deep_view(), from@),
{
    let ghost dv = roster.deep_view();
    proof {
        assert(dv.skip(0) =~= dv);
    }
    let mut i: usize = 0;
    while i < roster.len()
        invariant
            0 <= i <= roster.len(),
            dv == roster.deep_view(),
            dv.len() == roster.len(),
            forall|j: int| 0 <= j < roster@.len() ==> dv[j] == roster@[j]@,
            spec_avatar_for(dv.skip(i as int), from@) == spec_avatar_for(dv, from@),
        decreases roster.len() - i,
    {
        proof {
            assert(dv.skip(i as int)[0] == dv[i as int]);
            assert(dv.skip(i as int).skip(1) =~= dv.skip(i as int + 1));
        }
        if str_eq(roster[i].name.as_str(), from) {
            return roster[i].avatar.clone();
        }
        i = i + 1;
    }
    proof {
        assert(dv.skip(roster.len() as int) =~= Seq::<ProfileView>::empty());
    }
    fallback_avatar()
}

} // verus!
