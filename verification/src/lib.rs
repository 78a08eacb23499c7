//! A compiler front-end for a small tag-delimited markup language, together
//! with a visitor protocol over its syntax tree and an HTML document model
//! that one concrete visitor fills in.

pub mod ast;
pub mod ast_processor;
pub mod strutil;
pub mod lexer;
pub mod html;
pub mod html_processor;
pub mod parser;

pub use ast_processor::ASTProcessorVisitResult;
pub use ast_processor::IASTProcessor;
pub use ast_processor::visit_ast;

pub use ast::ASTNode;
pub use ast::ASTNodeList;
pub use ast::ASTNodeLiteral;
pub use ast::ASTNodePtr;
pub use ast::ASTNodeRoot;
pub use ast::ASTNodeTag;
pub use ast::ASTNodeText;

pub use parser::ParseError;
pub use parser::ParseErrors;
pub use parser::ParseResult;
pub use parser::Parser;

pub use html::Document;
pub use html::Element;
pub use html::ElementContent;
pub use html::ElementTag;
pub use html::create_meta_tag;
pub use html::escape;

pub use html_processor::HTMLProcessor;
