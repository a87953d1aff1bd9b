//! HDR10+ metadata as it is carried in a stream: an ITU-T T.35 message.

use crate::detect::HDR10PLUS_COUNTRY_CODE;
use crate::error::Av1Error;
use vstd::prelude::*;

verus! {

/// HDR10+ metadata of one frame.
pub struct Hdr10PlusMetadata {
    /// The T.35 message after its country code: provider code, oriented code,
    /// application identifier and version, and the HDR10+ payload.
    pub message: Vec<u8>,
    /// Whether the metadata conforms to an HDR10+ profile.
    pub conforms: bool,
}

/// What an [`Hdr10PlusMetadata`] holds.
#[verifier::ext_equal]
pub struct MetadataModel {
    pub message: Seq<u8>,
    pub conforms: bool,
}

impl View for Hdr10PlusMetadata {
    type V = MetadataModel;

    open spec fn view(&self) -> MetadataModel {
        MetadataModel { message: self.message@, conforms: self.conforms }
    }
}

/// How metadata is encoded.
pub struct Hdr10PlusMetadataEncOpts {
    /// Refuse metadata that does not conform to an HDR10+ profile.
    pub validate: bool,
    /// Start with the country code.
    pub with_country_code: bool,
}

/// One entry of the `SceneInfo` array of a JSON metadata file.
pub struct Hdr10PlusJsonMetadata {
    /// The metadata of the entry, or `None` where the entry does not describe
    /// any.
    pub metadata: Option<Hdr10PlusMetadata>,
}

impl View for Hdr10PlusJsonMetadata {
    type V = Option<MetadataModel>;

    open spec fn view(&self) -> Option<MetadataModel> {
        match self.metadata {
            Some(metadata) => Some(metadata@),
            None => None,
        }
    }
}

/// What the entries of a JSON metadata file hold.
pub open spec fn json_models(entries: Seq<Hdr10PlusJsonMetadata>) -> Seq<Option<MetadataModel>> {
    Seq::new(entries.len(), |i: int| entries[i]@)
}

/// The T.35 message from its country code on.
pub open spec fn t35_message(metadata: MetadataModel) -> Seq<u8> {
    seq![HDR10PLUS_COUNTRY_CODE] + metadata.message
}

impl Hdr10PlusMetadata {
    /// The metadata of a JSON entry.
    pub fn try_from(entry: &Hdr10PlusJsonMetadata) -> (r: Result<&Self, Av1Error>)
        ensures
            match r {
                Ok(metadata) => entry@ == Some(metadata@),
                Err(e) => entry@ is None && e == Av1Error::InvalidJson,
            },
    {
        match &entry.metadata {
            Some(metadata) => Ok(metadata),
            None => Err(Av1Error::InvalidJson),
        }
    }

    /// The T.35 message of the metadata.
    pub fn encode_with_opts(&self, opts: &Hdr10PlusMetadataEncOpts) -> (r: Result<
        Vec<u8>,
        Av1Error,
    >)
        ensures
            match r {
                Ok(t35) => {
                    &&& self.conforms || !opts.validate
                    &&& t35@ == (if opts.with_country_code {
                        t35_message(self@)
                    } else {
                        self@.message
                    })
                },
                Err(e) => {
                    &&& opts.validate && !self.conforms
                    &&& e == Av1Error::InvalidMetadata
                },
            },
    {
        if opts.validate && !self.conforms {
            return Err(Av1Error::InvalidMetadata);
        }
        let mut t35: Vec<u8> = Vec::new();
        if opts.with_country_code {
            t35.push(HDR10PLUS_COUNTRY_CODE);
        }
        t35.extend_from_slice(self.message.as_slice());
        assert(t35@ =~= (if opts.with_country_code {
            t35_message(self@)
        } else {
            self@.message
        }));
        Ok(t35)
    }
}

/// Law: a message is put behind the country code `B5` as it is.
pub proof fn law_t35_message(metadata: MetadataModel)
    ensures
        t35_message(metadata).len() == 1 + metadata.message.len(),
        t35_message(metadata)[0] == 0xB5,
        t35_message(metadata).skip(1) == metadata.message,
{
    assert(t35_message(metadata).skip(1) =~= metadata.message);
}

/// Law: a list of entries holds what its entries hold, in their order.
pub proof fn law_json_models(entries: Seq<Hdr10PlusJsonMetadata>, i: int)
    ensures
        json_models(entries).len() == entries.len(),
        0 <= i < entries.len() ==> {
            &&& json_models(entries)[i] is None <==> entries[i].metadata is None
            &&& entries[i].metadata matches Some(metadata) ==> {
                &&& json_models(entries)[i]->0.message == metadata.message@
                &&& json_models(entries)[i]->0.conforms == metadata.conforms
            }
        },
{
}

} // verus!
