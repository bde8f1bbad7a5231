//! The model abstraction: any LiDAR is "a byte stream that becomes frames".
//!
//! [`Decoder`] is the trait that each model's codec implements. The collector runs any of them
//! without knowing which. [`Model`] leads from a name in the settings to a decoder.

use crate::reader::ldrobot::stl27l::decoder::FrameDecoder;
use crate::reader::pacecat::lds50ce::decoder::PacketDecoder;
use crate::reader::types::LidarBody;
use crate::text::{name_key, same_chars};
use vstd::prelude::*;

verus! {

use crate::reader::framing::{Cut, cut_stream};
use crate::reader::types::{BodyView, bodies_view};
use crate::reader::ldrobot::stl27l::decoder::{frame_body, frame_rule};
use crate::reader::pacecat::lds50ce::decoder::{packet_body, packet_rule};
use crate::text::{key_of, law_key_goes_by_characters};

/// More bytes than any decoder ever keeps for later.
pub const MAX_PENDING: usize = 7_530;

/// A streaming decoder that cuts a byte stream into checked frames.
///
/// Models differ in header, length and checksum. Seen from outside they are alike: bytes that
/// come in are kept until they are a frame, and only checked frames come out.
pub trait Decoder: Send {
    /// The rule by which this decoder cuts a stream; see [`crate::reader::framing`].
    spec fn rule(&self) -> spec_fn(Seq<u8>) -> Cut;

    /// The measurements in one frame of this decoder's stream.
    spec fn body_in(&self) -> spec_fn(Seq<u8>) -> BodyView;

    /// The bytes kept for later.
    spec fn pending(&self) -> Seq<u8>;

    /// The bytes that the last push dropped.
    spec fn skipped(&self) -> nat;

    /// The bytes among these that it dropped because of a checksum.
    spec fn crc_failures(&self) -> nat;

    /// The decoder's invariant.
    spec fn ready(&self) -> bool;

    /// A ready decoder waits for bytes, keeps fewer than [`MAX_PENDING`], and cuts steadily.
    proof fn lemma_ready(&self)
        requires
            self.ready(),
        ensures
            self.pending().len() < MAX_PENDING,
            (self.rule())(self.pending()) is Hold,
            crate::reader::framing::steady(self.rule()),
    ;

    /// No frame has more points than bytes.
    proof fn lemma_points_fit(&self, buf: Seq<u8>)
        ensures
            forall|i: int|
                0 <= i < cut_stream(self.rule(), buf).windows.len() ==> (self.body_in())(
                    #[trigger] cut_stream(self.rule(), buf).windows[i],
                ).points.len() <= cut_stream(self.rule(), buf).windows[i].len(),
    ;

    /// Takes new bytes and returns the frames that are complete with them.
    fn push_bytes(&mut self, bytes: &[u8]) -> (frames: Vec<LidarBody>)
        requires
            old(self).ready(),
            bytes@.len() + MAX_PENDING <= usize::MAX,
        ensures
            final(self).ready(),
            final(self).rule() == old(self).rule(),
            final(self).body_in() == old(self).body_in(),
            ({
                let cuts = cut_stream(old(self).rule(), old(self).pending() + bytes@);
                &&& bodies_view(frames@) == cuts.windows.map_values(old(self).body_in())
                &&& final(self).pending() == cuts.rest
                &&& final(self).skipped() == cuts.skipped
                &&& final(self).crc_failures() == cuts.failures
            }),
    ;

    /// How many bytes the last push dropped because no frame began there.
    fn last_skipped(&self) -> (count: usize)
        requires
            self.ready(),
        ensures
            count == self.skipped(),
    ;

    /// How often the last push dropped a byte because a frame's checksum was wrong.
    fn last_crc_failures(&self) -> (count: usize)
        requires
            self.ready(),
        ensures
            count == self.crc_failures(),
    ;
}

/// The models that are supported.
#[derive(Debug, Clone, Copy, PartialEq, Eq, Structural)]
pub enum Model {
    /// LDROBOT STL-27L: frames of 47 bytes over a serial line.
    Stl27L,
    /// Pacecat LDS-50C-E: `0xFAC7` packets over UDP.
    Lds50CE,
}

/// The model that a name stands for.
pub open spec fn model_named(name: Seq<char>) -> Option<Model> {
    let key = key_of(name);
    if key == "stl27l"@ {
        Some(Model::Stl27L)
    } else if key == "lds50ce"@ || key == "lds50c"@ {
        Some(Model::Lds50CE)
    } else {
        None
    }
}

/// The name of a model for people.
pub open spec fn model_label(model: Model) -> Seq<char> {
    match model {
        Model::Stl27L => "LDROBOT STL-27L"@,
        Model::Lds50CE => "Pacecat LDS-50C-E"@,
    }
}

impl Model {
    /// All models.
    pub const ALL: [Model; 2] = [Model::Stl27L, Model::Lds50CE];

    /// The model with this name; capitals and separators do not matter.
    pub fn from_name(name: &str) -> (model: Option<Model>)
        ensures
            model == model_named(name@),
    {
        let key: Vec<char> = name_key(name);
        if same_chars(&key, "stl27l") {
            Some(Model::Stl27L)
        } else if same_chars(&key, "lds50ce") || same_chars(&key, "lds50c") {
            Some(Model::Lds50CE)
        } else {
            None
        }
    }

    /// The name of the model for people.
    pub fn label(&self) -> (label: &'static str)
        ensures
            label@ == model_label(*self),
    {
        match self {
            Model::Stl27L => "LDROBOT STL-27L",
            Model::Lds50CE => "Pacecat LDS-50C-E",
        }
    }

    /// A new decoder for this model, with nothing kept.
    pub fn new_decoder(&self) -> (decoder: ModelDecoder)
        ensures
            decoder.model() == *self,
            decoder.ready(),
            decoder.pending() == Seq::<u8>::empty(),
            decoder.skipped() == 0,
            decoder.crc_failures() == 0,
    {
        match self {
            Model::Stl27L => ModelDecoder::Stl27L(FrameDecoder::new()),
            Model::Lds50CE => ModelDecoder::Lds50CE(PacketDecoder::new()),
        }
    }
}

/// The decoder of any model.
pub enum ModelDecoder {
    Stl27L(FrameDecoder),
    Lds50CE(PacketDecoder),
}

impl ModelDecoder {
    /// The model whose stream this decodes.
    pub open spec fn model(&self) -> Model {
        match self {
            ModelDecoder::Stl27L(_) => Model::Stl27L,
            ModelDecoder::Lds50CE(_) => Model::Lds50CE,
        }
    }
}

impl Decoder for ModelDecoder {
    open spec fn rule(&self) -> spec_fn(Seq<u8>) -> Cut {
        match self {
            ModelDecoder::Stl27L(decoder) => decoder.rule(),
            ModelDecoder::Lds50CE(decoder) => decoder.rule(),
        }
    }

    open spec fn body_in(&self) -> spec_fn(Seq<u8>) -> BodyView {
        match self {
            ModelDecoder::Stl27L(decoder) => decoder.body_in(),
            ModelDecoder::Lds50CE(decoder) => decoder.body_in(),
        }
    }

    open spec fn pending(&self) -> Seq<u8> {
        match self {
            ModelDecoder::Stl27L(decoder) => decoder.pending(),
            ModelDecoder::Lds50CE(decoder) => decoder.pending(),
        }
    }

    open spec fn skipped(&self) -> nat {
        match self {
            ModelDecoder::Stl27L(decoder) => decoder.skipped(),
            ModelDecoder::Lds50CE(decoder) => decoder.skipped(),
        }
    }

    open spec fn crc_failures(&self) -> nat {
        match self {
            ModelDecoder::Stl27L(decoder) => decoder.crc_failures(),
            ModelDecoder::Lds50CE(decoder) => decoder.crc_failures(),
        }
    }

    open spec fn ready(&self) -> bool {
        match self {
            ModelDecoder::Stl27L(decoder) => decoder.ready(),
            ModelDecoder::Lds50CE(decoder) => decoder.ready(),
        }
    }

    proof fn lemma_ready(&self) {
        match self {
            ModelDecoder::Stl27L(decoder) => decoder.lemma_ready(),
            ModelDecoder::Lds50CE(decoder) => decoder.lemma_ready(),
        }
    }

    proof fn lemma_points_fit(&self, buf: Seq<u8>) {
        match self {
            ModelDecoder::Stl27L(decoder) => decoder.lemma_points_fit(buf),
            ModelDecoder::Lds50CE(decoder) => decoder.lemma_points_fit(buf),
        }
    }

    fn push_bytes(&mut self, bytes: &[u8]) -> (frames: Vec<LidarBody>)
        ensures
            final(self).model() == old(self).model(),
    {
        match self {
            ModelDecoder::Stl27L(decoder) => Decoder::push_bytes(decoder, bytes),
            ModelDecoder::Lds50CE(decoder) => Decoder::push_bytes(decoder, bytes),
        }
    }

    fn last_skipped(&self) -> (count: usize) {
        match self {
            ModelDecoder::Stl27L(decoder) => Decoder::last_skipped(decoder),
            ModelDecoder::Lds50CE(decoder) => Decoder::last_skipped(decoder),
        }
    }

    fn last_crc_failures(&self) -> (count: usize) {
        match self {
            ModelDecoder::Stl27L(decoder) => Decoder::last_crc_failures(decoder),
            ModelDecoder::Lds50CE(decoder) => Decoder::last_crc_failures(decoder),
        }
    }
}

/// The names of the models: capitals and what is no letter or digit aside, these three are known,
/// and no others.
pub proof fn law_names_of_models(name: Seq<char>)
    ensures
        model_named(name) == Some(Model::Stl27L) <==> key_of(name) == seq![
            's',
            't',
            'l',
            '2',
            '7',
            'l',
        ],
        model_named(name) == Some(Model::Lds50CE) <==> key_of(name) == seq![
            'l',
            'd',
            's',
            '5',
            '0',
            'c',
            'e',
        ] || key_of(name) == seq!['l', 'd', 's', '5', '0', 'c'],
{
    reveal_strlit("stl27l");
    reveal_strlit("lds50ce");
    reveal_strlit("lds50c");
    assert("stl27l"@ =~= seq!['s', 't', 'l', '2', '7', 'l']);
    assert("lds50ce"@ =~= seq!['l', 'd', 's', '5', '0', 'c', 'e']);
    assert("lds50c"@ =~= seq!['l', 'd', 's', '5', '0', 'c']);
    assert(seq!['s', 't', 'l', '2', '7', 'l'][0] == 's');
    assert(seq!['l', 'd', 's', '5', '0', 'c', 'e'][0] == 'l');
    assert(seq!['l', 'd', 's', '5', '0', 'c'][0] == 'l');
}

/// The name of a model for people is its maker's name, a space, and a name by which the model is
/// found.
pub proof fn law_label_names_its_model(model: Model)
    ensures
        model_label(model).len() > 8,
        model_label(model)[7] == ' ',
        model_named(model_label(model).skip(8)) == Some(model),
{
    let name = model_label(model).skip(8);
    law_names_of_models(name);
    match model {
        Model::Stl27L => {
            reveal_strlit("LDROBOT STL-27L");
            let n0 = Seq::<char>::empty();
            let n1 = n0.push('S');
            law_key_goes_by_characters(n0, 'S');
            let n2 = n1.push('T');
            law_key_goes_by_characters(n1, 'T');
            let n3 = n2.push('L');
            law_key_goes_by_characters(n2, 'L');
            let n4 = n3.push('-');
            law_key_goes_by_characters(n3, '-');
            let n5 = n4.push('2');
            law_key_goes_by_characters(n4, '2');
            let n6 = n5.push('7');
            law_key_goes_by_characters(n5, '7');
            let n7 = n6.push('L');
            law_key_goes_by_characters(n6, 'L');
            assert(name =~= n7);
            assert(key_of(name) =~= seq!['s', 't', 'l', '2', '7', 'l']);
        },
        Model::Lds50CE => {
            reveal_strlit("Pacecat LDS-50C-E");
            let n0 = Seq::<char>::empty();
            let n1 = n0.push('L');
            law_key_goes_by_characters(n0, 'L');
            let n2 = n1.push('D');
            law_key_goes_by_characters(n1, 'D');
            let n3 = n2.push('S');
            law_key_goes_by_characters(n2, 'S');
            let n4 = n3.push('-');
            law_key_goes_by_characters(n3, '-');
            let n5 = n4.push('5');
            law_key_goes_by_characters(n4, '5');
            let n6 = n5.push('0');
            law_key_goes_by_characters(n5, '0');
            let n7 = n6.push('C');
            law_key_goes_by_characters(n6, 'C');
            let n8 = n7.push('-');
            law_key_goes_by_characters(n7, '-');
            let n9 = n8.push('E');
            law_key_goes_by_characters(n8, 'E');
            assert(name =~= n9);
            assert(key_of(name) =~= seq!['l', 'd', 's', '5', '0', 'c', 'e']);
        },
    }
}

/// A decoder cuts and reads the stream of its own model.
pub proof fn law_decoder_reads_its_model(decoder: ModelDecoder)
    ensures
        decoder.model() is Stl27L <==> decoder is Stl27L,
        decoder.model() is Stl27L ==> decoder.rule() == frame_rule() && decoder.body_in()
            == frame_body(),
        decoder.model() is Lds50CE ==> decoder.rule() == packet_rule() && decoder.body_in()
            == packet_body(),
{
}

} // verus!
