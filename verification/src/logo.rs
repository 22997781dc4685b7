use vstd::prelude::*;

use crate::error::ContractError;

verus! {

pub const LOGO_SIZE_CAP: usize = 5 * 1024;

/// A token logo: a URL, or image data stored on chain.
#[derive(Clone, Debug, PartialEq, Eq)]
pub enum EmbeddedLogo {
    Svg(Vec<u8>),
    Png(Vec<u8>),
}

#[derive(Clone, Debug, PartialEq, Eq)]
pub enum Logo {
    Url(String),
    Embedded(EmbeddedLogo),
}

/// The end of the first inclusive split on `b'>'`: the index just past the
/// first `>` at or after `i`, or the length when none occurs.
pub open spec fn preamble_end(s: Seq<u8>, i: int) -> int
    decreases s.len() - i when 0 <= i <= s.len()
{
    if i >= s.len() {
        i
    } else if s[i] == 62 {
        i + 1
    } else {
        preamble_end(s, i + 1)
    }
}

/// The first split-inclusive segment on `>` opens with `<?xml ` and closes
/// with `?>`.
pub open spec fn xml_preamble_ok(s: Seq<u8>) -> bool {
    let pe = preamble_end(s, 0);
    &&& pe >= 6
    &&& s[0] == 60
    &&& s[1] == 63
    &&& s[2] == 120
    &&& s[3] == 109
    &&& s[4] == 108
    &&& s[5] == 32
    &&& s[pe - 2] == 63
    &&& s[pe - 1] == 62
}

/// Checks that the data starts with an XML preamble: its first
/// `>`-inclusive segment must begin with `<?xml ` and end with `?>`.
pub fn verify_xml_preamble(data: &[u8]) -> (r: Result<(), ContractError>)
    ensures
        r is Ok <==> xml_preamble_ok(data@),
        r matches Err(e) ==> e is InvalidXmlPreamble,
{
    let n = data.len();
    let mut i: usize = 0;
    while i < n && data[i] != 62
        invariant
            n == data@.len(),
            0 <= i <= n,
            preamble_end(data@, 0) == preamble_end(data@, i as int),
        decreases n - i,
    {
        i += 1;
    }
    let pe = if i < n {
        i + 1
    } else {
        i
    };
    proof {
        assert(preamble_end(data@, 0) == pe);
    }
    if pe < 6 {
        return Err(ContractError::InvalidXmlPreamble);
    }
    if data[0] == 60 && data[1] == 63 && data[2] == 120 && data[3] == 109 && data[4] == 108
        && data[5] == 32 && data[pe - 2] == 63 && data[pe - 1] == 62 {
        Ok(())
    } else {
        Err(ContractError::InvalidXmlPreamble)
    }
}

/// Validates an SVG logo: a correct XML preamble, then the size cap.
pub fn verify_xml_logo(logo: &[u8]) -> (r: Result<(), ContractError>)
    ensures
        r is Ok <==> xml_preamble_ok(logo@) && logo@.len() <= LOGO_SIZE_CAP,
        r matches Err(e) ==> (e is InvalidXmlPreamble <==> !xml_preamble_ok(logo@)) && (
        e is LogoTooBig <==> xml_preamble_ok(logo@) && logo@.len() > LOGO_SIZE_CAP),
{
    match verify_xml_preamble(logo) {
        Ok(()) => {},
        Err(e) => {
            return Err(e);
        },
    }
    if logo.len() > LOGO_SIZE_CAP {
        Err(ContractError::LogoTooBig)
    } else {
        Ok(())
    }
}

/// The eight-byte PNG signature.
pub open spec fn png_header_ok(s: Seq<u8>) -> bool {
    &&& s.len() >= 8
    &&& s[0] == 0x89
    &&& s[1] == 80
    &&& s[2] == 78
    &&& s[3] == 71
    &&& s[4] == 0x0d
    &&& s[5] == 0x0a
    &&& s[6] == 0x1a
    &&& s[7] == 0x0a
}

/// Validates a PNG logo: the size cap first, then the PNG signature.
pub fn verify_png_logo(logo: &[u8]) -> (r: Result<(), ContractError>)
    ensures
        r is Ok <==> logo@.len() <= LOGO_SIZE_CAP && png_header_ok(logo@),
        r matches Err(e) ==> (e is LogoTooBig <==> logo@.len() > LOGO_SIZE_CAP) && (
        e is InvalidPngHeader <==> logo@.len() <= LOGO_SIZE_CAP && !png_header_ok(logo@)),
{
    if logo.len() > LOGO_SIZE_CAP {
        return Err(ContractError::LogoTooBig);
    }
    if logo.len() < 8 {
        return Err(ContractError::InvalidPngHeader);
    }
    if logo[0] == 0x89 && logo[1] == 80 && logo[2] == 78 && logo[3] == 71 && logo[4] == 0x0d
        && logo[5] == 0x0a && logo[6] == 0x1a && logo[7] == 0x0a {
        Ok(())
    } else {
        Err(ContractError::InvalidPngHeader)
    }
}

/// Checks an uploaded logo; URLs pass unchecked, embedded images are
/// validated by format.
pub fn verify_logo(logo: &Logo) -> (r: Result<(), ContractError>)
    ensures
        logo matches Logo::Embedded(EmbeddedLogo::Svg(data)) ==> (r is Ok <==> xml_preamble_ok(
            data@,
        ) && data@.len() <= LOGO_SIZE_CAP),
        logo matches Logo::Embedded(EmbeddedLogo::Png(data)) ==> (r is Ok <==> data@.len()
            <= LOGO_SIZE_CAP && png_header_ok(data@)),
        logo is Url ==> r is Ok,
{
    match logo {
        Logo::Embedded(EmbeddedLogo::Svg(data)) => verify_xml_logo(data.as_slice()),
        Logo::Embedded(EmbeddedLogo::Png(data)) => verify_png_logo(data.as_slice()),
        Logo::Url(_) => Ok(()),
    }
}

} // verus!
