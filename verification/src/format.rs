use vstd::prelude::*;
use crate::error::{DecodeError, ErrorKind};
use crate::text::str_eq;

verus! {

/// The closed set of semantic format identifiers a schema document may
/// declare.  An identifier outside this set does not parse as a `Format`.
#[derive(Clone, Copy, Debug, PartialEq, Eq, Structural)]
pub enum Format {
    IsBool,
    IsFloat,
    IsInt,
    IsJson,
    IsNullOrUnsignedId,
    IsSerializedArray,
    IsString,
    IsUnsignedId,
    IsUnsignedInt,
    IsUnsignedFloat,
    IsAnything,
    IsApe,
    IsBirthDate,
    IsCleanHtml,
    IsColor,
    IsDate,
    IsDateFormat,
    IsEmail,
    IsImageSize,
    IsIp2Long,
    IsLanguageCode,
    IsLanguageIsoCode,
    IsLinkRewrite,
    IsLocale,
    IsMd5,
    IsNumericIsoCode,
    IsPasswd,
    IsPasswdAdmin,
    IsPercentage,
    IsPhpDateFormat,
    IsPriceDisplayMethod,
    IsReductionType,
    IsReference,
    IsSha1,
    IsThemeName,
    IsTrackingNumber,
    IsUrl,
    IsStockManagement,
    IsCatalogName,
    IsCarrierName,
    IsConfigName,
    IsCustomerName,
    IsGenericName,
    IsGenericName1,
    IsImageTypeName,
    IsModuleName,
    IsName,
    IsTplName,
    IsAbsoluteUrl,
    IsEan13,
    IsIsbn,
    IsMpn,
    IsNegativePrice,
    IsPrice,
    IsProductVisibility,
    IsUpc,
    IsAddress,
    IsDniLite,
    IsCityName,
    IsCoordinate,
    IsMessage,
    IsPhoneNumber,
    IsPostCode,
    IsStateIsoCode,
    IsZipCodeFormat,
    IsDateOrNull,
}

/// The closed identifier table: each format under its lower-camel-case
/// name; `IsGenericName1` is a second spelling that the wire format uses
/// with a capital initial.
pub open spec fn format_of_ident(s: Seq<char>) -> Option<Format> {
    if s == "isBool"@ {
        Some(Format::IsBool)
    } else if s == "isFloat"@ {
        Some(Format::IsFloat)
    } else if s == "isInt"@ {
        Some(Format::IsInt)
    } else if s == "isJson"@ {
        Some(Format::IsJson)
    } else if s == "isNullOrUnsignedId"@ {
        Some(Format::IsNullOrUnsignedId)
    } else if s == "isSerializedArray"@ {
        Some(Format::IsSerializedArray)
    } else if s == "isString"@ {
        Some(Format::IsString)
    } else if s == "isUnsignedId"@ {
        Some(Format::IsUnsignedId)
    } else if s == "isUnsignedInt"@ {
        Some(Format::IsUnsignedInt)
    } else if s == "isUnsignedFloat"@ {
        Some(Format::IsUnsignedFloat)
    } else if s == "isAnything"@ {
        Some(Format::IsAnything)
    } else if s == "isApe"@ {
        Some(Format::IsApe)
    } else if s == "isBirthDate"@ {
        Some(Format::IsBirthDate)
    } else if s == "isCleanHtml"@ {
        Some(Format::IsCleanHtml)
    } else if s == "isColor"@ {
        Some(Format::IsColor)
    } else if s == "isDate"@ {
        Some(Format::IsDate)
    } else if s == "isDateFormat"@ {
        Some(Format::IsDateFormat)
    } else if s == "isEmail"@ {
        Some(Format::IsEmail)
    } else if s == "isImageSize"@ {
        Some(Format::IsImageSize)
    } else if s == "isIp2Long"@ {
        Some(Format::IsIp2Long)
    } else if s == "isLanguageCode"@ {
        Some(Format::IsLanguageCode)
    } else if s == "isLanguageIsoCode"@ {
        Some(Format::IsLanguageIsoCode)
    } else if s == "isLinkRewrite"@ {
        Some(Format::IsLinkRewrite)
    } else if s == "isLocale"@ {
        Some(Format::IsLocale)
    } else if s == "isMd5"@ {
        Some(Format::IsMd5)
    } else if s == "isNumericIsoCode"@ {
        Some(Format::IsNumericIsoCode)
    } else if s == "isPasswd"@ {
        Some(Format::IsPasswd)
    } else if s == "isPasswdAdmin"@ {
        Some(Format::IsPasswdAdmin)
    } else if s == "isPercentage"@ {
        Some(Format::IsPercentage)
    } else if s == "isPhpDateFormat"@ {
        Some(Format::IsPhpDateFormat)
    } else if s == "isPriceDisplayMethod"@ {
        Some(Format::IsPriceDisplayMethod)
    } else if s == "isReductionType"@ {
        Some(Format::IsReductionType)
    } else if s == "isReference"@ {
        Some(Format::IsReference)
    } else if s == "isSha1"@ {
        Some(Format::IsSha1)
    } else if s == "isThemeName"@ {
        Some(Format::IsThemeName)
    } else if s == "isTrackingNumber"@ {
        Some(Format::IsTrackingNumber)
    } else if s == "isUrl"@ {
        Some(Format::IsUrl)
    } else if s == "isStockManagement"@ {
        Some(Format::IsStockManagement)
    } else if s == "isCatalogName"@ {
        Some(Format::IsCatalogName)
    } else if s == "isCarrierName"@ {
        Some(Format::IsCarrierName)
    } else if s == "isConfigName"@ {
        Some(Format::IsConfigName)
    } else if s == "isCustomerName"@ {
        Some(Format::IsCustomerName)
    } else if s == "isGenericName"@ {
        Some(Format::IsGenericName)
    } else if s == "IsGenericName"@ {
        Some(Format::IsGenericName1)
    } else if s == "isImageTypeName"@ {
        Some(Format::IsImageTypeName)
    } else if s == "isModuleName"@ {
        Some(Format::IsModuleName)
    } else if s == "isName"@ {
        Some(Format::IsName)
    } else if s == "isTplName"@ {
        Some(Format::IsTplName)
    } else if s == "isAbsoluteUrl"@ {
        Some(Format::IsAbsoluteUrl)
    } else if s == "isEan13"@ {
        Some(Format::IsEan13)
    } else if s == "isIsbn"@ {
        Some(Format::IsIsbn)
    } else if s == "isMpn"@ {
        Some(Format::IsMpn)
    } else if s == "isNegativePrice"@ {
        Some(Format::IsNegativePrice)
    } else if s == "isPrice"@ {
        Some(Format::IsPrice)
    } else if s == "isProductVisibility"@ {
        Some(Format::IsProductVisibility)
    } else if s == "isUpc"@ {
        Some(Format::IsUpc)
    } else if s == "isAddress"@ {
        Some(Format::IsAddress)
    } else if s == "isDniLite"@ {
        Some(Format::IsDniLite)
    } else if s == "isCityName"@ {
        Some(Format::IsCityName)
    } else if s == "isCoordinate"@ {
        Some(Format::IsCoordinate)
    } else if s == "isMessage"@ {
        Some(Format::IsMessage)
    } else if s == "isPhoneNumber"@ {
        Some(Format::IsPhoneNumber)
    } else if s == "isPostCode"@ {
        Some(Format::IsPostCode)
    } else if s == "isStateIsoCode"@ {
        Some(Format::IsStateIsoCode)
    } else if s == "isZipCodeFormat"@ {
        Some(Format::IsZipCodeFormat)
    } else if s == "isDateOrNull"@ {
        Some(Format::IsDateOrNull)
    } else {
        None
    }
}

impl Format {
    /// Parses a format identifier from the closed table.
    pub fn from_string(s: &str) -> (r: Result<Format, DecodeError>)
        ensures
            r matches Ok(f) ==> format_of_ident(s@) == Some(f),
            r matches Err(e) ==> format_of_ident(s@) is None && e.kind
                == ErrorKind::UnsupportedFormat,
    {
        if str_eq(s, "isBool") {
            Ok(Format::IsBool)
        } else if str_eq(s, "isFloat") {
            Ok(Format::IsFloat)
        } else if str_eq(s, "isInt") {
            Ok(Format::IsInt)
        } else if str_eq(s, "isJson") {
            Ok(Format::IsJson)
        } else if str_eq(s, "isNullOrUnsignedId") {
            Ok(Format::IsNullOrUnsignedId)
        } else if str_eq(s, "isSerializedArray") {
            Ok(Format::IsSerializedArray)
        } else if str_eq(s, "isString") {
            Ok(Format::IsString)
        } else if str_eq(s, "isUnsignedId") {
            Ok(Format::IsUnsignedId)
        } else if str_eq(s, "isUnsignedInt") {
            Ok(Format::IsUnsignedInt)
        } else if str_eq(s, "isUnsignedFloat") {
            Ok(Format::IsUnsignedFloat)
        } else if str_eq(s, "isAnything") {
            Ok(Format::IsAnything)
        } else if str_eq(s, "isApe") {
            Ok(Format::IsApe)
        } else if str_eq(s, "isBirthDate") {
            Ok(Format::IsBirthDate)
        } else if str_eq(s, "isCleanHtml") {
            Ok(Format::IsCleanHtml)
        } else if str_eq(s, "isColor") {
            Ok(Format::IsColor)
        } else if str_eq(s, "isDate") {
            Ok(Format::IsDate)
        } else if str_eq(s, "isDateFormat") {
            Ok(Format::IsDateFormat)
        } else if str_eq(s, "isEmail") {
            Ok(Format::IsEmail)
        } else if str_eq(s, "isImageSize") {
            Ok(Format::IsImageSize)
        } else if str_eq(s, "isIp2Long") {
            Ok(Format::IsIp2Long)
        } else if str_eq(s, "isLanguageCode") {
            Ok(Format::IsLanguageCode)
        } else if str_eq(s, "isLanguageIsoCode") {
            Ok(Format::IsLanguageIsoCode)
        } else if str_eq(s, "isLinkRewrite") {
            Ok(Format::IsLinkRewrite)
        } else if str_eq(s, "isLocale") {
            Ok(Format::IsLocale)
        } else if str_eq(s, "isMd5") {
            Ok(Format::IsMd5)
        } else if str_eq(s, "isNumericIsoCode") {
            Ok(Format::IsNumericIsoCode)
        } else if str_eq(s, "isPasswd") {
            Ok(Format::IsPasswd)
        } else if str_eq(s, "isPasswdAdmin") {
            Ok(Format::IsPasswdAdmin)
        } else if str_eq(s, "isPercentage") {
            Ok(Format::IsPercentage)
        } else if str_eq(s, "isPhpDateFormat") {
            Ok(Format::IsPhpDateFormat)
        } else if str_eq(s, "isPriceDisplayMethod") {
            Ok(Format::IsPriceDisplayMethod)
        } else if str_eq(s, "isReductionType") {
            Ok(Format::IsReductionType)
        } else if str_eq(s, "isReference") {
            Ok(Format::IsReference)
        } else if str_eq(s, "isSha1") {
            Ok(Format::IsSha1)
        } else if str_eq(s, "isThemeName") {
            Ok(Format::IsThemeName)
        } else if str_eq(s, "isTrackingNumber") {
            Ok(Format::IsTrackingNumber)
        } else if str_eq(s, "isUrl") {
            Ok(Format::IsUrl)
        } else if str_eq(s, "isStockManagement") {
            Ok(Format::IsStockManagement)
        } else if str_eq(s, "isCatalogName") {
            Ok(Format::IsCatalogName)
        } else if str_eq(s, "isCarrierName") {
            Ok(Format::IsCarrierName)
        } else if str_eq(s, "isConfigName") {
            Ok(Format::IsConfigName)
        } else if str_eq(s, "isCustomerName") {
            Ok(Format::IsCustomerName)
        } else if str_eq(s, "isGenericName") {
            Ok(Format::IsGenericName)
        } else if str_eq(s, "IsGenericName") {
            Ok(Format::IsGenericName1)
        } else if str_eq(s, "isImageTypeName") {
            Ok(Format::IsImageTypeName)
        } else if str_eq(s, "isModuleName") {
            Ok(Format::IsModuleName)
        } else if str_eq(s, "isName") {
            Ok(Format::IsName)
        } else if str_eq(s, "isTplName") {
            Ok(Format::IsTplName)
        } else if str_eq(s, "isAbsoluteUrl") {
            Ok(Format::IsAbsoluteUrl)
        } else if str_eq(s, "isEan13") {
            Ok(Format::IsEan13)
        } else if str_eq(s, "isIsbn") {
            Ok(Format::IsIsbn)
        } else if str_eq(s, "isMpn") {
            Ok(Format::IsMpn)
        } else if str_eq(s, "isNegativePrice") {
            Ok(Format::IsNegativePrice)
        } else if str_eq(s, "isPrice") {
            Ok(Format::IsPrice)
        } else if str_eq(s, "isProductVisibility") {
            Ok(Format::IsProductVisibility)
        } else if str_eq(s, "isUpc") {
            Ok(Format::IsUpc)
        } else if str_eq(s, "isAddress") {
            Ok(Format::IsAddress)
        } else if str_eq(s, "isDniLite") {
            Ok(Format::IsDniLite)
        } else if str_eq(s, "isCityName") {
            Ok(Format::IsCityName)
        } else if str_eq(s, "isCoordinate") {
            Ok(Format::IsCoordinate)
        } else if str_eq(s, "isMessage") {
            Ok(Format::IsMessage)
        } else if str_eq(s, "isPhoneNumber") {
            Ok(Format::IsPhoneNumber)
        } else if str_eq(s, "isPostCode") {
            Ok(Format::IsPostCode)
        } else if str_eq(s, "isStateIsoCode") {
            Ok(Format::IsStateIsoCode)
        } else if str_eq(s, "isZipCodeFormat") {
            Ok(Format::IsZipCodeFormat)
        } else if str_eq(s, "isDateOrNull") {
            Ok(Format::IsDateOrNull)
        } else {
            Err(DecodeError { kind: ErrorKind::UnsupportedFormat, path: Vec::new() })
        }
    }
}

} // verus!
