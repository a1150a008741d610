use portfolio::block::Block;
use portfolio::engine::Template;

fn from_string(name: &str, content: &str) -> Result<Template, portfolio::error::Error> {
    Template::from_string(name.to_string(), content.to_string())
}

#[test]
fn test_template_from_string() {
    let template_content = "@heading{1}{Test Template}\n@paragraph{This is a test.}";
    let template = from_string("test", template_content).unwrap();

    assert_eq!(template.name, "test");
    assert_eq!(template.blocks.len(), 2);

    match &template.blocks[0] {
        Block::Heading { level, text } => {
            assert_eq!(*level, 1);
            assert_eq!(text, "Test Template");
        }
        _ => panic!("Expected heading block"),
    }

    match &template.blocks[1] {
        Block::Paragraph(text) => {
            assert_eq!(text, "This is a test.");
        }
        _ => panic!("Expected paragraph block"),
    }
}

#[test]
fn test_parse_directive() {
    let template_content = "@heading{1}{Title}\n@paragraph{Text}\n@command{ls -la}\n";
    let template = from_string("test", template_content).unwrap();

    assert_eq!(template.blocks.len(), 3);

    match &template.blocks[0] {
        Block::Heading { level, text } => {
            assert_eq!(*level, 1);
            assert_eq!(text, "Title");
        }
        _ => panic!("Expected heading block"),
    }

    match &template.blocks[1] {
        Block::Paragraph(text) => {
            assert_eq!(text, "Text");
        }
        _ => panic!("Expected paragraph block"),
    }

    match &template.blocks[2] {
        Block::CommandPrompt(cmd) => {
            assert_eq!(cmd, "ls -la");
        }
        _ => panic!("Expected command block"),
    }
}

#[test]
fn test_parse_nested_blocks() {
    let template_content = "@frame{Frame Title}{\n@heading{2}{Nested Heading}\n@paragraph{Nested paragraph.}\n}";
    let template = from_string("test", template_content).unwrap();

    assert_eq!(template.blocks.len(), 1);

    match &template.blocks[0] {
        Block::Frame { title, content } => {
            assert_eq!(title.as_ref().unwrap(), "Frame Title");
            assert_eq!(content.len(), 2);

            match &content[0] {
                Block::Heading { level, text } => {
                    assert_eq!(*level, 2);
                    assert_eq!(text, "Nested Heading");
                }
                _ => panic!("Expected heading block"),
            }

            match &content[1] {
                Block::Paragraph(text) => {
                    assert_eq!(text, "Nested paragraph.");
                }
                _ => panic!("Expected paragraph block"),
            }
        }
        _ => panic!("Expected frame block"),
    }
}

#[test]
fn test_parse_metric() {
    let template_content = "@metric{CPU Usage}{78.5}{%}{+2.3}";
    let template = from_string("test", template_content).unwrap();

    assert_eq!(template.blocks.len(), 1);

    match &template.blocks[0] {
        Block::Metric { name, value, unit, trend } => {
            assert_eq!(name, "CPU Usage");
            assert_eq!(value, "78.5");
            assert_eq!(unit.as_ref().unwrap(), "%");
            assert_eq!(trend.as_ref().unwrap().text.parse::<f64>().unwrap(), 2.3);
        }
        _ => panic!("Expected metric block"),
    }
}

#[test]
fn test_parse_table() {
    let template_content =
        "@table{\n@headers{Name|Value|Status}\n@row{Server 1|10.5|OK}\n@row{Server 2|8.3|Warning}\n}";
    let template = from_string("test", template_content).unwrap();

    assert_eq!(template.blocks.len(), 1);

    match &template.blocks[0] {
        Block::Table { headers, rows } => {
            assert_eq!(headers.len(), 3);
            assert_eq!(headers[0], "Name");
            assert_eq!(headers[1], "Value");
            assert_eq!(headers[2], "Status");

            assert_eq!(rows.len(), 2);
            assert_eq!(rows[0][0], "Server 1");
            assert_eq!(rows[0][1], "10.5");
            assert_eq!(rows[0][2], "OK");

            assert_eq!(rows[1][0], "Server 2");
            assert_eq!(rows[1][1], "8.3");
            assert_eq!(rows[1][2], "Warning");
        }
        _ => panic!("Expected table block"),
    }
}

#[test]
fn test_parse_plain_text() {
    let template_content = "This is plain text.\n@heading{1}{Title}\nMore plain text.";
    let template = from_string("test", template_content).unwrap();

    assert_eq!(template.blocks.len(), 3);

    match &template.blocks[0] {
        Block::Paragraph(text) => {
            assert_eq!(text, "This is plain text.\n");
        }
        _ => panic!("Expected paragraph block"),
    }

    match &template.blocks[1] {
        Block::Heading { level, text } => {
            assert_eq!(*level, 1);
            assert_eq!(text, "Title");
        }
        _ => panic!("Expected heading block"),
    }

    match &template.blocks[2] {
        Block::Paragraph(text) => {
            assert_eq!(text, "More plain text.");
        }
        _ => panic!("Expected paragraph block"),
    }
}

#[test]
fn test_template_error_handling() {
    let template_content = "@heading{1{Title}";
    let result = from_string("test", template_content);
    assert!(result.is_err());

    let template_content = "@unknown{Something}";
    let result = from_string("test", template_content);
    assert!(result.is_err());

    let template_content = "@heading{not_a_number}{Title}";
    let result = from_string("test", template_content);
    assert!(result.is_err());
}

#[test]
fn test_template_variables() {
    let mut template = from_string("test", "@heading{1}{Hello @var{name}}").unwrap();

    template.set_variable("name".to_string(), "World".to_string());

    let value = template.variables.iter().find(|(k, _)| k == "name").map(|(_, v)| v.clone());
    assert_eq!(value.unwrap(), "World");
}
