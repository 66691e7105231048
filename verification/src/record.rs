//! The emoji record and its mathematical view.

use vstd::prelude::*;

verus! {

/// One unmodeled JSON member of a record: `key` is the member name, `value`
/// is the raw JSON text of the member value, kept verbatim so that nothing
/// the remote service sends is dropped on a round trip.
#[derive(Debug)]
pub struct ExtraField {
    pub key: String,
    pub value: String,
}

impl View for ExtraField {
    type V = (Seq<char>, Seq<char>);

    open spec fn view(&self) -> (Seq<char>, Seq<char>) {
        (self.key@, self.value@)
    }
}

/// One custom emoji. `name` is the unique key within a workspace and the
/// filename stem; `created` is the sole sort key; `unknown_fields` carries
/// every member the service sent beyond the modeled ones.
pub struct Emoji {
    pub name: String,
    pub is_alias: u8,
    pub alias_for: String,
    pub url: String,
    pub created: u128,
    pub user_display_name: String,
    pub avatar_hash: String,
    pub unknown_fields: Vec<ExtraField>,
}

/// The mathematical value of a record: each text field as a sequence of
/// characters, each unmodeled member as a (key, raw value) pair in order.
#[verifier::ext_equal]
pub ghost struct EmojiView {
    pub name: Seq<char>,
    pub is_alias: u8,
    pub alias_for: Seq<char>,
    pub url: Seq<char>,
    pub created: u128,
    pub user_display_name: Seq<char>,
    pub avatar_hash: Seq<char>,
    pub unknown_fields: Seq<(Seq<char>, Seq<char>)>,
}

impl View for Emoji {
    type V = EmojiView;

    open spec fn view(&self) -> EmojiView {
        EmojiView {
            name: self.name@,
            is_alias: self.is_alias,
            alias_for: self.alias_for@,
            url: self.url@,
            created: self.created,
            user_display_name: self.user_display_name@,
            avatar_hash: self.avatar_hash@,
            unknown_fields: self.unknown_fields@.map_values(|f: ExtraField| f@),
        }
    }
}

/// A raw unmodeled value is kept verbatim on a single line of the
/// persisted form, where a line break would end it early and a trailing
/// comma would read as the line's own separator. So it must contain no
/// line break and not end in a comma. Compact JSON satisfies both.
pub open spec fn raw_value_ok(v: Seq<char>) -> bool {
    &&& forall|i: int| 0 <= i < v.len() ==> v[i] != '\n'
    &&& (v.len() == 0 || v.last() != ',')
}

impl EmojiView {
    /// A record is well formed when every unmodeled value fits on one line.
    pub open spec fn wf(self) -> bool {
        forall|i: int|
            0 <= i < self.unknown_fields.len() ==> raw_value_ok(
                #[trigger] self.unknown_fields[i].1,
            )
    }
}

impl Emoji {
    /// A fixed sample record, handy for exercising the emission paths.
    pub fn new(name: &str) -> (r: Emoji)
        ensures
            r@.name == name@,
            r@.is_alias == 0,
            r@.alias_for == Seq::<char>::empty(),
            r@.url == "https://cdn.example.com/emoji.png"@,
            r@.created == 133742069,
            r@.user_display_name == "M3t0r"@,
            r@.avatar_hash == "0xdeadbeef"@,
            r@.unknown_fields == Seq::<(Seq<char>, Seq<char>)>::empty(),
            r@.wf(),
    {
        let r = Emoji {
            name: String::from_str(name),
            is_alias: 0,
            alias_for: String::new(),
            url: String::from_str("https://cdn.example.com/emoji.png"),
            created: 133742069,
            user_display_name: String::from_str("M3t0r"),
            avatar_hash: String::from_str("0xdeadbeef"),
            unknown_fields: Vec::new(),
        };
        proof {
            assert(r@.unknown_fields =~= Seq::<(Seq<char>, Seq<char>)>::empty());
        }
        r
    }
}

} // verus!
