//! Parsing of format definitions: `name:type field;type[n] field;...`.
use vstd::prelude::*;
use vstd::utf8::*;

use crate::errors::{SpecError, ULogError};
use crate::message_buf::MessageBuf;
use crate::model::def;
use crate::model::def::{SpecBaseType, SpecField, SpecFormat, SpecTypeExpr, field_views};
use crate::text::{str_eq, string_from_utf8};
use crate::tokenizer::{SpecToken, Token, TokenList, lex, numbers_fit};

verus! {

/// The base type that a type name denotes: one of the primitive type names, or another format.
pub open spec fn spec_base_type_from_name(name: Seq<char>) -> SpecBaseType {
    if name == "int8_t"@ {
        SpecBaseType::INT8
    } else if name == "int16_t"@ {
        SpecBaseType::INT16
    } else if name == "int32_t"@ {
        SpecBaseType::INT32
    } else if name == "int64_t"@ {
        SpecBaseType::INT64
    } else if name == "uint8_t"@ {
        SpecBaseType::UINT8
    } else if name == "uint16_t"@ {
        SpecBaseType::UINT16
    } else if name == "uint32_t"@ {
        SpecBaseType::UINT32
    } else if name == "uint64_t"@ {
        SpecBaseType::UINT64
    } else if name == "double"@ {
        SpecBaseType::DOUBLE
    } else if name == "float"@ {
        SpecBaseType::FLOAT
    } else if name == "bool"@ {
        SpecBaseType::BOOL
    } else if name == "char"@ {
        SpecBaseType::CHAR
    } else {
        SpecBaseType::OTHER(name)
    }
}

/// The field definition at the front of `ts`, and how many tokens it spans: a type name,
/// optionally `[` length `]`, then the field name.
pub open spec fn spec_parse_field(ts: Seq<SpecToken>) -> Result<(SpecField, int), SpecError> {
    if ts.len() < 1 {
        Err(SpecError::UnexpectedEndOfFile)
    } else {
        match ts[0] {
            SpecToken::Identifier(tname) => {
                let base_type = spec_base_type_from_name(tname);
                let array: Result<(Option<usize>, int), SpecError> = if ts.len() > 1
                    && ts[1] is LBrace {
                    if ts.len() < 4 {
                        Err(SpecError::UnexpectedEndOfFile)
                    } else if ts[2] is Number && ts[3] is RBrace {
                        Ok((Some(ts[2]->Number_0 as usize), 4))
                    } else {
                        Err(SpecError::ParseError)
                    }
                } else {
                    Ok((None, 1))
                };
                match array {
                    Err(e) => Err(e),
                    Ok((array_size, k)) => {
                        if ts.len() < k + 1 {
                            Err(SpecError::UnexpectedEndOfFile)
                        } else {
                            match ts[k] {
                                SpecToken::Identifier(name) => Ok(
                                    (
                                        SpecField {
                                            name,
                                            type_expr: SpecTypeExpr { base_type, array_size },
                                        },
                                        k + 1,
                                    ),
                                ),
                                _ => Err(SpecError::ParseError),
                            }
                        }
                    },
                }
            },
            _ => Err(SpecError::ParseError),
        }
    }
}

/// The fields of a format body: field definitions, each followed by `;`, up to the end.
pub open spec fn spec_parse_fields(ts: Seq<SpecToken>) -> Result<Seq<SpecField>, SpecError>
    decreases ts.len(),
{
    if ts.len() == 0 {
        Ok(Seq::empty())
    } else {
        match spec_parse_field(ts) {
            Err(e) => Err(e),
            Ok((f, k)) => {
                if k < 1 || k > ts.len() {
                    Err(SpecError::InternalError)
                } else if ts.len() < k + 1 {
                    Err(SpecError::UnexpectedEndOfFile)
                } else if ts[k] is Semicolon {
                    match spec_parse_fields(ts.skip(k + 1)) {
                        Err(e) => Err(e),
                        Ok(fs) => Ok(seq![f] + fs),
                    }
                } else {
                    Err(SpecError::ParseError)
                }
            },
        }
    }
}

/// The format that the tokens `ts` define: a name, `:`, then the fields.
pub open spec fn spec_parse_format_tokens(ts: Seq<SpecToken>) -> Result<SpecFormat, SpecError> {
    if ts.len() < 2 {
        Err(SpecError::UnexpectedEndOfFile)
    } else if ts[0] is Identifier && ts[1] is Colon {
        match spec_parse_fields(ts.skip(2)) {
            Err(e) => Err(e),
            Ok(fields) => Ok(SpecFormat { name: ts[0]->Identifier_0, fields, padding: 0 }),
        }
    } else {
        Err(SpecError::ParseError)
    }
}

/// The format that the bytes of a format message define.
pub open spec fn spec_parse_format(bytes: Seq<u8>) -> Result<SpecFormat, SpecError> {
    if !valid_utf8(bytes) {
        Err(SpecError::Utf8)
    } else if !numbers_fit(lex(decode_utf8(bytes))) {
        Err(SpecError::ParseError)
    } else {
        spec_parse_format_tokens(lex(decode_utf8(bytes)))
    }
}

impl def::BaseType {
    /// The base type that a type name denotes: a primitive type, or `OTHER` with the name.
    pub fn from_string(string: &str) -> (r: def::BaseType)
        ensures
            r@ == spec_base_type_from_name(string@),
    {
        if str_eq(string, "int8_t") {
            def::BaseType::INT8
        } else if str_eq(string, "int16_t") {
            def::BaseType::INT16
        } else if str_eq(string, "int32_t") {
            def::BaseType::INT32
        } else if str_eq(string, "int64_t") {
            def::BaseType::INT64
        } else if str_eq(string, "uint8_t") {
            def::BaseType::UINT8
        } else if str_eq(string, "uint16_t") {
            def::BaseType::UINT16
        } else if str_eq(string, "uint32_t") {
            def::BaseType::UINT32
        } else if str_eq(string, "uint64_t") {
            def::BaseType::UINT64
        } else if str_eq(string, "double") {
            def::BaseType::DOUBLE
        } else if str_eq(string, "float") {
            def::BaseType::FLOAT
        } else if str_eq(string, "bool") {
            def::BaseType::BOOL
        } else if str_eq(string, "char") {
            def::BaseType::CHAR
        } else {
            def::BaseType::OTHER(string.to_owned())
        }
    }

    /// Whether this is the type of another format rather than a primitive type.
    pub fn is_other(&self) -> (r: bool)
        ensures
            r == (self is OTHER),
    {
        match self {
            def::BaseType::OTHER(_) => true,
            _ => false,
        }
    }
}

/// Parses the field definition at the front of `token_list`: a type name, optionally `[`
/// length `]`, and the field name. On success the field's tokens are taken from the list.
pub fn parse_field(token_list: &mut TokenList) -> (r: Result<def::Field, ULogError>)
    ensures
        match spec_parse_field(old(token_list)@) {
            Ok((f, k)) => r matches Ok(x) && x@ == f && final(token_list)@ == old(
                token_list,
            )@.skip(k),
            Err(e) => r matches Err(x) && x.kind() == e,
        },
{
    let ghost ts = token_list@;
    let base_type = match token_list.consume_one() {
        Err(e) => return Err(e),
        Ok(Token::Identifier(tname)) => def::BaseType::from_string(tname),
        Ok(_) => return Err(ULogError::ParseError("unexpected token in a format definition".to_owned())),
    };
    let mut array_size: Option<usize> = None;
    let brace_next = match token_list.peek() {
        Some(Token::LBrace) => true,
        _ => false,
    };
    if brace_next {
        match token_list.consume_three() {
            Err(e) => return Err(e),
            Ok((Token::LBrace, Token::Number(size), Token::RBrace)) => {
                array_size = Some(size);
            },
            Ok(_) => return Err(ULogError::ParseError("unexpected token in a format definition".to_owned())),
        }
    }
    let ghost k: int = if brace_next { 4 } else { 1 };
    assert(token_list@ == ts.skip(k));
    let name = match token_list.consume_one() {
        Err(e) => return Err(e),
        Ok(Token::Identifier(name)) => name,
        Ok(_) => return Err(ULogError::ParseError("unexpected token in a format definition".to_owned())),
    };
    assert(token_list@ =~= ts.skip(k + 1));
    Ok(def::Field { name: name.to_owned(), type_: def::TypeExpr { base_type, array_size } })
}

/// The result of parsing the whole of a format body, given the fields already parsed and the
/// result for the tokens left.
pub open spec fn fields_so_far(
    done: Seq<SpecField>,
    rest: Result<Seq<SpecField>, SpecError>,
) -> Result<Seq<SpecField>, SpecError> {
    match rest {
        Ok(fs) => Ok(done + fs),
        Err(e) => Err(e),
    }
}

/// Parses the text of a format message, `name:type field;...`, into a format definition.
pub fn parse_format(message_buf: MessageBuf) -> (r: Result<def::Format, ULogError>)
    ensures
        match spec_parse_format(message_buf@) {
            Ok(f) => r matches Ok(x) && x@ == f,
            Err(e) => r matches Err(x) && x.kind() == e,
        },
{
    let ghost bytes = message_buf@;
    let str_format = match string_from_utf8(message_buf.into_remaining_bytes()) {
        Ok(s) => s,
        Err(e) => return Err(ULogError::Utf8(e)),
    };
    let mut token_list = TokenList::from_str(str_format.as_str())?;
    let ghost ts = token_list@;
    let name = match token_list.consume_two() {
        Err(e) => return Err(e),
        Ok((Token::Identifier(name), Token::Colon)) => name,
        Ok(_) => return Err(ULogError::ParseError("unexpected token in a format definition".to_owned())),
    };
    let ghost body = ts.skip(2);
    assert(token_list@ =~= body);
    let mut fields: Vec<def::Field> = Vec::new();
    assert(field_views(fields@) + spec_parse_fields(body)->Ok_0 =~= spec_parse_fields(body)->Ok_0);
    while !token_list.is_empty()
        invariant
            bytes == message_buf@,
            spec_parse_format(bytes) == (match spec_parse_fields(body) {
                Err(e) => Err(e),
                Ok(fs) => Ok(SpecFormat { name: name@, fields: fs, padding: 0 }),
            }),
            spec_parse_fields(body) == fields_so_far(field_views(fields@), spec_parse_fields(
                token_list@,
            )),
        decreases token_list@.len(),
    {
        let ghost rest = token_list@;
        let field = match parse_field(&mut token_list) {
            Ok(f) => f,
            Err(e) => {
                assert(spec_parse_fields(rest) == Err::<Seq<SpecField>, SpecError>(e.kind()));
                return Err(e);
            },
        };
        let ghost k = spec_parse_field(rest)->Ok_0.1;
        let ghost before = fields@;
        fields.push(field);
        proof {
            let (f, kk) = spec_parse_field(rest)->Ok_0;
            assert(1 <= kk <= rest.len());
        }
        match token_list.consume_one() {
            Ok(Token::Semicolon) => {},
            Ok(_) => {
                assert(spec_parse_fields(rest) == Err::<Seq<SpecField>, SpecError>(
                    SpecError::ParseError,
                ));
                return Err(ULogError::ParseError("unexpected token in a format definition".to_owned()));
            },
            Err(e) => {
                assert(spec_parse_fields(rest) == Err::<Seq<SpecField>, SpecError>(e.kind()));
                return Err(e);
            },
        }
        proof {
            assert(token_list@ == rest.skip(k + 1));
            assert(field_views(fields@) =~= field_views(before).push(field@));
            match spec_parse_fields(rest.skip(k + 1)) {
                Ok(fs) => {
                    assert(field_views(before) + (seq![field@] + fs) =~= field_views(fields@)
                        + fs);
                },
                Err(_) => {},
            }
        }
    }
    proof {
        assert(spec_parse_fields(token_list@) == Ok::<Seq<SpecField>, SpecError>(Seq::empty()));
        assert(field_views(fields@) + Seq::<SpecField>::empty() =~= field_views(fields@));
    }
    Ok(def::Format { name: name.to_owned(), fields, padding: 0 })
}

} // verus!
